//! Replaying one transaction on the execution engine.
use crate::epoch::{first_says, has_no_record, lemma_gas_price_is_there};
use crate::error::LocalExecError;
use crate::event::{all_say, is_first_start, says, EventsReply, SuiEvent};
use crate::inputs::{InputsResult, Progress, ResolvedInput};
use crate::listing::{law_every_map_has_its_listing, values_in_order};
use crate::local_exec::LocalExec;
use crate::protocol::TransactionReply;
use crate::request::{copied, Request, Step};
use crate::sandbox::ExecutionSandboxState;
use crate::setup::{
    env_reply_fits, env_step, is_same_request, is_same_stage, law_setup_only_adds,
    lemma_preparation_is_determined, EnvReply, EnvStage,
};
use crate::storage::{lemma_all_values, Storage};
use crate::types::{
    Object, ObjectID, ObjectRef, OnChainTransactionInfo, SequenceNumber, SuiAddress,
    TransactionDigest, TransactionEffects, TransactionKind,
};
use std::sync::Arc;
use vstd::prelude::*;

verus! {

broadcast use {
    vstd::std_specs::btree::group_btree_axioms,
    vstd::laws_cmp::group_laws_cmp,
};

/// All that the execution engine is called with.
#[derive(Debug, PartialEq)]
pub struct EngineCall {
    pub shared_object_refs: Vec<ObjectRef>,
    pub inputs: Vec<ResolvedInput>,
    pub kind: Arc<TransactionKind>,
    pub sender: SuiAddress,
    pub gas: Vec<ObjectRef>,
    pub gas_budget: u64,
    pub gas_price: u64,
    pub tx_digest: TransactionDigest,
    pub dependencies: Vec<TransactionDigest>,
    pub executed_epoch: u64,
    pub epoch_start_timestamp: u64,
    pub protocol_version: u64,
}

/// What the execution engine gives back: the temporary store, the effects or why
/// they could not be read, and the status.
#[derive(Debug)]
pub struct EngineOutcome<S, E> {
    pub temporary_store: S,
    pub effects: Result<Arc<TransactionEffects>, LocalExecError>,
    pub status: Result<(), E>,
}

/// Where a replay stands.
#[derive(Debug, PartialEq)]
pub enum EngineStage {
    /// Nothing has been asked yet.
    Begin,
    /// The storage is being prepared.
    Env(EnvStage),
    /// The start of the epoch is looked up. The events are there once the node has
    /// answered the request for them.
    EpochStart { inputs: Vec<ResolvedInput>, events: Option<EventsReply> },
}

/// An answer to one of the requests of a replay.
#[derive(Debug, PartialEq)]
pub enum EngineReply {
    Env(EnvReply),
    Events(EventsReply),
    Transaction(TransactionReply),
}

/// How far a replay came.
#[derive(Debug)]
pub enum EngineStep<S, E> {
    /// Put the request and go on with the reply.
    Ask(Request, EngineStage),
    /// There is nothing to ask; go on.
    Continue(EngineStage),
    /// Call the execution engine.
    Execute(EngineCall),
    Done(Result<ExecutionSandboxState<S, E>, LocalExecError>),
}

/// The part of a reply that the preparation of the storage asked for.
pub open spec fn env_reply_of(reply: Option<EngineReply>) -> Option<EnvReply> {
    match reply {
        Some(EngineReply::Env(reply)) => Some(reply),
        _ => None,
    }
}

/// The events that the node has answered by now.
pub open spec fn events_of(events: Option<EventsReply>, reply: Option<EngineReply>) -> Option<
    EventsReply,
> {
    match reply {
        Some(EngineReply::Events(reply)) => Some(reply),
        _ => events,
    }
}

/// The transaction that a reply holds.
pub open spec fn transaction_of(reply: Option<EngineReply>) -> Option<TransactionReply> {
    match reply {
        Some(EngineReply::Transaction(reply)) => Some(reply),
        _ => None,
    }
}

/// Whether a transaction is a genesis transaction, which cannot be replayed.
pub open spec fn is_genesis(info: &OnChainTransactionInfo, marker: TransactionDigest) -> bool {
    info.tx_digest == marker || info.sender == SuiAddress::zero()
}

/// Whether the engine is called with what is known of a transaction.
pub open spec fn is_call_for(
    call: EngineCall,
    info: &OnChainTransactionInfo,
    override_kind: Option<Arc<TransactionKind>>,
    inputs: Vec<ResolvedInput>,
    epoch_start_timestamp: u64,
) -> bool {
    &&& call.shared_object_refs@ == info.shared_object_refs@
    &&& call.inputs == inputs
    &&& call.kind == match override_kind {
        Some(kind) => kind,
        None => info.kind,
    }
    &&& call.sender == info.sender
    &&& call.gas@ == info.gas@
    &&& call.gas_budget == info.gas_budget
    &&& call.gas_price == info.gas_price
    &&& call.tx_digest == info.tx_digest
    &&& call.dependencies@ == info.dependencies@
    &&& call.executed_epoch == info.executed_epoch
    &&& call.epoch_start_timestamp == epoch_start_timestamp
    &&& call.protocol_version == info.protocol_version
}

/// What a genesis transaction is answered: it counts as replayed with the outcome
/// that is on the chain.
pub open spec fn is_genesis_state<S, E>(
    state: ExecutionSandboxState<S, E>,
    info: Arc<OnChainTransactionInfo>,
) -> bool {
    &&& state.transaction_info == info
    &&& state.required_objects@.len() == 0
    &&& state.local_exec_temporary_store is None
    &&& state.local_exec_effects == info.effects
    &&& state.local_exec_status is Ok
}

/// What a replay is told next: nothing at first and after `EngineStep::Continue`,
/// else the answer to what was asked for last.
pub open spec fn engine_reply_fits(
    exec: &LocalExec,
    info: &OnChainTransactionInfo,
    at: EngineStage,
    reply: Option<EngineReply>,
) -> bool {
    match at {
        EngineStage::Begin => reply is None,
        EngineStage::Env(stage) => {
            &&& !(stage is Begin)
            &&& match reply {
                None => env_reply_fits(info, exec.storage@, stage, None),
                Some(EngineReply::Env(reply)) => env_reply_fits(
                    info,
                    exec.storage@,
                    stage,
                    Some(reply),
                ),
                _ => false,
            }
        },
        EngineStage::EpochStart { events, .. } => match (events, reply) {
            (None, Some(EngineReply::Events(reply))) => exec.has_gas_price(
                info.executed_epoch,
                Some(reply),
            ),
            (Some(_), Some(EngineReply::Transaction(_))) => exec.has_gas_price(
                info.executed_epoch,
                events,
            ),
            _ => false,
        },
    }
}

/// What becomes of a replay once the inputs are there and the start of the epoch has been
/// looked up with the replies so far.
pub open spec fn after_epoch_start<S, E>(
    info: &OnChainTransactionInfo,
    override_kind: Option<Arc<TransactionKind>>,
    inputs: Vec<ResolvedInput>,
    events: Option<EventsReply>,
    start: Step<Result<(u64, u64), LocalExecError>>,
    r: EngineStep<S, E>,
) -> bool {
    match start {
        Step::Ask(request) => r == EngineStep::<S, E>::Ask(
            request,
            EngineStage::EpochStart { inputs, events },
        ),
        Step::Done(Err(err)) => r == EngineStep::<S, E>::Done(Err(err)),
        Step::Done(Ok((timestamp, _))) => r matches EngineStep::Execute(call) && is_call_for(
            call,
            info,
            override_kind,
            inputs,
            timestamp,
        ),
    }
}

/// What becomes of a replay when the preparation of the storage has come so far.
pub open spec fn after_env<S, E>(
    exec: &LocalExec,
    info: &OnChainTransactionInfo,
    override_kind: Option<Arc<TransactionKind>>,
    inner: Progress<EnvStage, InputsResult>,
    r: EngineStep<S, E>,
) -> bool {
    match inner {
        Progress::Ask(request, stage) => r == EngineStep::<S, E>::Ask(
            request,
            EngineStage::Env(stage),
        ),
        Progress::Continue(stage) => r == EngineStep::<S, E>::Continue(EngineStage::Env(stage)),
        Progress::Done(Err(err)) => r == EngineStep::<S, E>::Done(Err(err)),
        Progress::Done(Ok(inputs)) => exists|start: Step<Result<(u64, u64), LocalExecError>>|
            {
                &&& #[trigger] exec.epoch_start_step(info.executed_epoch, None, None, start)
                &&& after_epoch_start(info, override_kind, inputs, None, start, r)
            },
    }
}

/// One step of a replay.
pub open spec fn engine_step<S, E>(
    before: &LocalExec,
    info: Arc<OnChainTransactionInfo>,
    override_kind: Option<Arc<TransactionKind>>,
    at: EngineStage,
    reply: Option<EngineReply>,
    after: &LocalExec,
    r: EngineStep<S, E>,
) -> bool {
    match at {
        EngineStage::Begin => if is_genesis(&info, before.params.genesis_marker_tx) {
            *after == *before && (r matches EngineStep::Done(Ok(state)) && is_genesis_state(
                state,
                info,
            ))
        } else {
            exists|inner: Progress<EnvStage, InputsResult>|
                {
                    &&& #[trigger] env_step(before, &info, EnvStage::Begin, None, after, inner)
                    &&& after_env(after, &info, override_kind, inner, r)
                }
        },
        EngineStage::Env(stage) => exists|inner: Progress<EnvStage, InputsResult>|
            {
                &&& #[trigger] env_step(
                    before,
                    &info,
                    stage,
                    env_reply_of(reply),
                    after,
                    inner,
                )
                &&& after_env(after, &info, override_kind, inner, r)
            },
        EngineStage::EpochStart { inputs, events } => {
            &&& *after == *before
            &&& exists|start: Step<Result<(u64, u64), LocalExecError>>|
                {
                    &&& #[trigger] before.epoch_start_step(
                        info.executed_epoch,
                        events_of(events, reply),
                        transaction_of(reply),
                        start,
                    )
                    &&& after_epoch_start(
                        &info,
                        override_kind,
                        inputs,
                        events_of(events, reply),
                        start,
                        r,
                    )
                }
        },
    }
}

impl LocalExec {
    fn call_engine<S, E>(
        &self,
        tx_info: &OnChainTransactionInfo,
        override_transaction_kind: &Option<Arc<TransactionKind>>,
        inputs: Vec<ResolvedInput>,
        events: Option<EventsReply>,
        start: Step<Result<(u64, u64), LocalExecError>>,
    ) -> (r: EngineStep<S, E>)
        ensures
            after_epoch_start(tx_info, *override_transaction_kind, inputs, events, start, r),
    {
        let (epoch_start_timestamp, _) = match start {
            Step::Ask(request) => {
                return EngineStep::Ask(request, EngineStage::EpochStart { inputs, events });
            },
            Step::Done(Err(err)) => {
                return EngineStep::Done(Err(err));
            },
            Step::Done(Ok(found)) => found,
        };
        let kind = match override_transaction_kind {
            Some(kind) => kind.clone(),
            None => tx_info.kind.clone(),
        };
        EngineStep::Execute(
            EngineCall {
                shared_object_refs: copied(&tx_info.shared_object_refs),
                inputs,
                kind,
                sender: tx_info.sender,
                gas: copied(&tx_info.gas),
                gas_budget: tx_info.gas_budget,
                gas_price: tx_info.gas_price,
                tx_digest: tx_info.tx_digest,
                dependencies: copied(&tx_info.dependencies),
                executed_epoch: tx_info.executed_epoch,
                epoch_start_timestamp,
                protocol_version: tx_info.protocol_version,
            },
        )
    }

    fn go_on_with_env<S, E>(
        &self,
        tx_info: &OnChainTransactionInfo,
        override_transaction_kind: &Option<Arc<TransactionKind>>,
        inner: Progress<EnvStage, InputsResult>,
    ) -> (r: EngineStep<S, E>)
        ensures
            after_env(self, tx_info, *override_transaction_kind, inner, r),
    {
        match inner {
            Progress::Ask(request, stage) => EngineStep::Ask(request, EngineStage::Env(stage)),
            Progress::Continue(stage) => EngineStep::Continue(EngineStage::Env(stage)),
            Progress::Done(Err(err)) => EngineStep::Done(Err(err)),
            Progress::Done(Ok(inputs)) => {
                let start = self.get_epoch_start_timestamp_and_rgp(
                    tx_info.executed_epoch,
                    &None,
                    &None,
                );
                self.call_engine(tx_info, override_transaction_kind, inputs, None, start)
            },
        }
    }

    /// Replays a transaction: the storage is prepared, the start of the epoch is looked up,
    /// and then the execution engine is to be called. What it gives back is for
    /// `finish_execution`. A genesis transaction is not replayed.
    ///
    /// `at` is where the replay stands and `reply` the answer to what was asked for last.
    pub fn execution_engine_execute_with_tx_info_impl<S, E>(
        &mut self,
        tx_info: &Arc<OnChainTransactionInfo>,
        override_transaction_kind: &Option<Arc<TransactionKind>>,
        at: EngineStage,
        reply: Option<EngineReply>,
    ) -> (r: EngineStep<S, E>)
        requires
            engine_reply_fits(old(self), tx_info, at, reply),
        ensures
            engine_step(
                old(self),
                *tx_info,
                *override_transaction_kind,
                at,
                reply,
                final(self),
                r,
            ),
    {
        match at {
            EngineStage::Begin => {
                if tx_info.tx_digest == self.params.genesis_marker_tx || (tx_info.sender.hi == 0
                    && tx_info.sender.lo == 0) {
                    return EngineStep::Done(
                        Ok(
                            ExecutionSandboxState {
                                transaction_info: tx_info.clone(),
                                required_objects: Vec::new(),
                                local_exec_temporary_store: None,
                                local_exec_effects: tx_info.effects.clone(),
                                local_exec_status: Ok(()),
                            },
                        ),
                    );
                }
                let inner = self.initialize_execution_env_state(tx_info, EnvStage::Begin, None);
                self.go_on_with_env(tx_info, override_transaction_kind, inner)
            },
            EngineStage::Env(stage) => {
                let env_reply = match reply {
                    Some(EngineReply::Env(reply)) => Some(reply),
                    _ => None,
                };
                let inner = self.initialize_execution_env_state(tx_info, stage, env_reply);
                self.go_on_with_env(tx_info, override_transaction_kind, inner)
            },
            EngineStage::EpochStart { inputs, events } => {
                let (seen, tx) = match reply {
                    Some(EngineReply::Events(reply)) => (Some(reply), None),
                    Some(EngineReply::Transaction(reply)) => (events, Some(reply)),
                    _ => (events, None),
                };
                let start = self.get_epoch_start_timestamp_and_rgp(
                    tx_info.executed_epoch,
                    &seen,
                    &tx,
                );
                self.call_engine(tx_info, override_transaction_kind, inputs, seen, start)
            },
        }
    }

    /// What came of a replay, from what the execution engine gave back. All objects that are
    /// in the storage by now count as required.
    pub fn finish_execution<S, E>(
        &self,
        tx_info: &Arc<OnChainTransactionInfo>,
        outcome: EngineOutcome<S, E>,
    ) -> (r: Result<ExecutionSandboxState<S, E>, LocalExecError>)
        ensures
            match outcome.effects {
                Err(err) => r == Err::<ExecutionSandboxState<S, E>, _>(err),
                Ok(effects) => {
                    &&& r matches Ok(state)
                    &&& state.transaction_info == *tx_info
                    &&& state.required_objects@ == values_in_order(self.storage@.live)
                        + values_in_order(self.storage@.packages) + values_in_order(
                        self.storage@.versions,
                    )
                    &&& forall|obj: Object| #[trigger]
                        state.required_objects@.contains(obj) <==> self.storage@.holds(obj)
                    &&& state.local_exec_temporary_store == Some(outcome.temporary_store)
                    &&& state.local_exec_effects == effects
                    &&& state.local_exec_status == outcome.status
                },
            },
    {
        let required_objects = self.storage.all_objects();
        match outcome.effects {
            Ok(effects) => Ok(
                ExecutionSandboxState {
                    transaction_info: tx_info.clone(),
                    required_objects,
                    local_exec_temporary_store: Some(outcome.temporary_store),
                    local_exec_effects: effects,
                    local_exec_status: outcome.status,
                },
            ),
            Err(err) => Err(err),
        }
    }
}

/// A genesis transaction always passes the comparison with the chain.
pub proof fn law_genesis_agrees<S, E>(
    state: ExecutionSandboxState<S, E>,
    info: Arc<OnChainTransactionInfo>,
)
    requires
        is_genesis_state(state, info),
    ensures
        state.agrees(),
{
}

/// A genesis transaction, which is known by its digest or by a sender of zeros, is not replayed:
/// nothing is asked, nothing changes, and the outcome is the one on the chain.
pub proof fn law_genesis_is_not_replayed<S, E>(
    before: &LocalExec,
    info: Arc<OnChainTransactionInfo>,
    override_kind: Option<Arc<TransactionKind>>,
    after: &LocalExec,
    r: EngineStep<S, E>,
)
    requires
        info.tx_digest == before.params.genesis_marker_tx || (info.sender.hi == 0 && info.sender.lo
            == 0),
        exists|session: &mut LocalExec|
            *session == *before && *final(session) == *after && #[trigger] call_ensures(
                LocalExec::execution_engine_execute_with_tx_info_impl::<S, E>,
                (session, &info, &override_kind, EngineStage::Begin, None::<EngineReply>),
                r,
            ),
    ensures
        *after == *before,
        r matches EngineStep::Done(Ok(state)) && {
            &&& state.transaction_info == info
            &&& state.required_objects@.len() == 0
            &&& state.local_exec_temporary_store is None
            &&& state.local_exec_effects == info.effects
            &&& state.local_exec_status is Ok
        },
{
}

/// Any other transaction is prepared first: what it changed is asked for at the old versions, under
/// its own protocol version.
pub proof fn law_a_replay_begins_with_the_preparation<S, E>(
    before: &LocalExec,
    info: Arc<OnChainTransactionInfo>,
    override_kind: Option<Arc<TransactionKind>>,
    after: &LocalExec,
    r: EngineStep<S, E>,
)
    requires
        info.tx_digest != before.params.genesis_marker_tx,
        info.sender.hi != 0 || info.sender.lo != 0,
        exists|session: &mut LocalExec|
            *session == *before && *final(session) == *after && #[trigger] call_ensures(
                LocalExec::execution_engine_execute_with_tx_info_impl::<S, E>,
                (session, &info, &override_kind, EngineStage::Begin, None::<EngineReply>),
                r,
            ),
    ensures
        *after == (LocalExec { current_protocol_version: info.protocol_version, ..*before }),
        r matches EngineStep::Ask(
            Request::VersionedObjects(keys),
            EngineStage::Env(EnvStage::Modified),
        ) && keys@ == info.modified_at_versions@,
{
}

/// The engine is called with the transaction as it is known, field by field, and with the inputs
/// that were prepared. Only the kind of the transaction can be overridden.
pub proof fn law_the_engine_gets_the_transaction<S, E>(
    before: &LocalExec,
    info: Arc<OnChainTransactionInfo>,
    override_kind: Option<Arc<TransactionKind>>,
    at: EngineStage,
    reply: Option<EngineReply>,
    after: &LocalExec,
    call: EngineCall,
)
    requires
        engine_reply_fits(before, &info, at, reply),
        exists|session: &mut LocalExec|
            *session == *before && *final(session) == *after && #[trigger] call_ensures(
                LocalExec::execution_engine_execute_with_tx_info_impl::<S, E>,
                (session, &info, &override_kind, at, reply),
                EngineStep::<S, E>::Execute(call),
            ),
    ensures
        call.tx_digest == info.tx_digest,
        call.sender == info.sender,
        call.kind == match override_kind {
            Some(kind) => kind,
            None => info.kind,
        },
        call.gas@ == info.gas@,
        call.gas_budget == info.gas_budget,
        call.gas_price == info.gas_price,
        call.shared_object_refs@ == info.shared_object_refs@,
        call.dependencies@ == info.dependencies@,
        call.executed_epoch == info.executed_epoch,
        call.protocol_version == info.protocol_version,
        match at {
            EngineStage::Begin => false,
            EngineStage::Env(stage) => stage == (EnvStage::Children { inputs: call.inputs })
                && call.epoch_start_timestamp == 0 && before.is_testnet && 3 <= info.executed_epoch
                <= 741,
            EngineStage::EpochStart { inputs, .. } => inputs == call.inputs,
        },
{
    if let EngineStage::Env(stage) = at {
        let inner = choose|inner: Progress<EnvStage, InputsResult>|
            {
                &&& #[trigger] env_step(before, &info, stage, env_reply_of(reply), after, inner)
                &&& after_env::<S, E>(
                    after,
                    &info,
                    override_kind,
                    inner,
                    EngineStep::Execute(call),
                )
            };
        law_setup_only_adds(before, &info, stage, env_reply_of(reply), after, inner);
    }
}

/// Once the storage is prepared, the start of the epoch is looked up: the events are asked for with
/// the newest first, then the transaction of the first event that says that the epoch of the
/// transaction starts. The time of the call is the one that this transaction, a change of
/// epoch, holds.
pub proof fn law_the_engine_gets_the_time_of_its_epoch<S, E>(
    before: &LocalExec,
    info: Arc<OnChainTransactionInfo>,
    override_kind: Option<Arc<TransactionKind>>,
    inputs: Vec<ResolvedInput>,
    events: Vec<SuiEvent>,
    epochs: Seq<u64>,
    versions: Seq<u64>,
    i: int,
    gas_price: u64,
    tx: Option<TransactionReply>,
    at: EngineStage,
    reply: Option<EngineReply>,
    after: &LocalExec,
    r: EngineStep<S, E>,
)
    requires
        match tx {
            None => at == (EngineStage::EpochStart { inputs, events: None }) && reply == Some(
                EngineReply::Events(Ok(events)),
            ),
            Some(tx) => at == (EngineStage::EpochStart { inputs, events: Some(Ok(events)) })
                && reply == Some(EngineReply::Transaction(tx)),
        },
        all_say(events@, epochs, versions),
        first_says(epochs, info.executed_epoch, i),
        says(events@[i], "reference_gas_price"@, gas_price),
        !has_no_record(before.is_testnet, info.executed_epoch),
        exists|session: &mut LocalExec|
            *session == *before && *final(session) == *after && #[trigger] call_ensures(
                LocalExec::execution_engine_execute_with_tx_info_impl::<S, E>,
                (session, &info, &override_kind, at, reply),
                r,
            ),
    ensures
        *after == *before,
        match tx {
            None => r == EngineStep::<S, E>::Ask(
                Request::Transaction(events@[i].tx_digest),
                EngineStage::EpochStart { inputs, events: Some(Ok(events)) },
            ),
            Some(Err(err)) => r == EngineStep::<S, E>::Done(Err(err)),
            Some(Ok(record)) => match *record.kind {
                TransactionKind::ChangeEpoch { epoch_start_timestamp_ms, .. } => r matches
                    EngineStep::Execute(call) && call.epoch_start_timestamp
                    == epoch_start_timestamp_ms && call.inputs == inputs,
                TransactionKind::Other { .. } => r == EngineStep::<S, E>::Done(
                    Err(LocalExecError::InvalidEpochChangeTx { epoch: info.executed_epoch }),
                ),
            },
        },
{
    lemma_gas_price_is_there(
        before,
        info.executed_epoch,
        events,
        epochs,
        versions,
        i,
        gas_price,
    );
}

/// When the last child objects are there, the events are asked for, unless nothing is recorded of
/// the epoch.
pub proof fn law_the_epoch_is_looked_up_after_the_preparation<S, E>(
    before: &LocalExec,
    info: Arc<OnChainTransactionInfo>,
    override_kind: Option<Arc<TransactionKind>>,
    inputs: Vec<ResolvedInput>,
    objs: Vec<Object>,
    after: &LocalExec,
    r: EngineStep<S, E>,
)
    requires
        !has_no_record(before.is_testnet, info.executed_epoch),
        exists|session: &mut LocalExec|
            *session == *before && *final(session) == *after && #[trigger] call_ensures(
                LocalExec::execution_engine_execute_with_tx_info_impl::<S, E>,
                (
                    session,
                    &info,
                    &override_kind,
                    EngineStage::Env(EnvStage::Children { inputs }),
                    Some(EngineReply::Env(EnvReply::Objects(Ok(objs)))),
                ),
                r,
            ),
    ensures
        r == EngineStep::<S, E>::Ask(
            Request::EpochChangeEvents { reverse: true },
            EngineStage::EpochStart { inputs, events: None },
        ),
{
}

/// What the engine gives back is the outcome of the replay, untouched, with the transaction that
/// was replayed and with all objects that are stored, and no others, as those that it needed.
pub proof fn law_the_outcome_of_the_engine_is_kept<S, E>(
    exec: &LocalExec,
    info: Arc<OnChainTransactionInfo>,
    outcome: EngineOutcome<S, E>,
    r: Result<ExecutionSandboxState<S, E>, LocalExecError>,
    obj: Object,
)
    requires
        call_ensures(LocalExec::finish_execution::<S, E>, (exec, &info, outcome), r),
    ensures
        match outcome.effects {
            Err(err) => r == Err::<ExecutionSandboxState<S, E>, _>(err),
            Ok(effects) => {
                &&& r matches Ok(state)
                &&& state.transaction_info == info
                &&& state.local_exec_temporary_store == Some(outcome.temporary_store)
                &&& state.local_exec_effects == effects
                &&& state.local_exec_status == outcome.status
                &&& state.required_objects@.contains(obj) <==> {
                    ||| exists|id: ObjectID| #[trigger]
                        exec.storage@.live.contains_pair(id, obj)
                    ||| exists|id: ObjectID| #[trigger]
                        exec.storage@.packages.contains_pair(id, obj)
                    ||| exists|key: (ObjectID, SequenceNumber)| #[trigger]
                        exec.storage@.versions.contains_pair(key, obj)
                }
            },
        },
{
    law_every_map_has_its_listing(exec.storage@.live);
    law_every_map_has_its_listing(exec.storage@.packages);
    law_every_map_has_its_listing(exec.storage@.versions);
    lemma_all_values(exec.storage@, obj);
}

/// While the storage is prepared, a replay does what the preparation does: it asks the same and
/// goes on in the same way, and fails with the same error. With the inputs it asks for the
/// events with the newest first or, if nothing is recorded of the epoch, calls the engine with
/// the time 0.
pub proof fn law_a_replay_follows_the_preparation<S, E>(
    before: &LocalExec,
    info: Arc<OnChainTransactionInfo>,
    override_kind: Option<Arc<TransactionKind>>,
    stage: EnvStage,
    reply: Option<EnvReply>,
    engine_reply: Option<EngineReply>,
    prepared: &LocalExec,
    inner: Progress<EnvStage, InputsResult>,
    after: &LocalExec,
    r: EngineStep<S, E>,
)
    requires
        !(stage is Begin),
        env_reply_fits(&info, before.storage@, stage, reply),
        match reply {
            Some(reply) => engine_reply == Some(EngineReply::Env(reply)),
            None => engine_reply is None,
        },
        exists|session: &mut LocalExec|
            *session == *before && *final(session) == *prepared && #[trigger] call_ensures(
                LocalExec::initialize_execution_env_state,
                (session, &*info, stage, reply),
                inner,
            ),
        exists|session: &mut LocalExec|
            *session == *before && *final(session) == *after && #[trigger] call_ensures(
                LocalExec::execution_engine_execute_with_tx_info_impl::<S, E>,
                (session, &info, &override_kind, EngineStage::Env(stage), engine_reply),
                r,
            ),
    ensures
        after.storage@ == prepared.storage@,
        *after == (LocalExec { storage: after.storage, ..*before }),
        match inner {
            Progress::Ask(request, next) => {
                &&& r matches EngineStep::Ask(asked, EngineStage::Env(at))
                &&& is_same_request(request, asked)
                &&& is_same_stage(next, at)
            },
            Progress::Continue(next) => {
                &&& r matches EngineStep::Continue(EngineStage::Env(at))
                &&& is_same_stage(next, at)
            },
            Progress::Done(Err(err)) => r == EngineStep::<S, E>::Done(Err(err)),
            Progress::Done(Ok(inputs)) => if has_no_record(before.is_testnet, info.executed_epoch) {
                &&& r matches EngineStep::Execute(call)
                &&& call.inputs@ == inputs@
                &&& call.epoch_start_timestamp == 0
            } else {
                &&& r matches EngineStep::Ask(
                    Request::EpochChangeEvents { reverse: true },
                    EngineStage::EpochStart { inputs: kept, events: None },
                )
                &&& kept@ == inputs@
            },
        },
{
    assert(env_reply_of(engine_reply) == reply);
    let other = choose|other: Progress<EnvStage, InputsResult>|
        {
            &&& #[trigger] env_step(before, &info, stage, env_reply_of(engine_reply), after, other)
            &&& after_env::<S, E>(after, &info, override_kind, other, r)
        };
    lemma_preparation_is_determined(before, &info, stage, reply, prepared, inner, after, other);
    law_setup_only_adds(before, &info, stage, reply, after, other);
}

/// The start of the epoch is looked up with the events, once they are there, and then with the
/// transaction that they name: what the look-up asks for is asked for, its error is the error,
/// and the time that it gives is the one that the engine gets. Nothing changes.
pub proof fn law_a_replay_follows_the_epoch_start<S, E>(
    before: &LocalExec,
    info: Arc<OnChainTransactionInfo>,
    override_kind: Option<Arc<TransactionKind>>,
    inputs: Vec<ResolvedInput>,
    events: Option<EventsReply>,
    reply: EngineReply,
    seen: Option<EventsReply>,
    tx: Option<TransactionReply>,
    start: Step<Result<(u64, u64), LocalExecError>>,
    after: &LocalExec,
    r: EngineStep<S, E>,
)
    requires
        match reply {
            EngineReply::Events(reply) => events is None && seen == Some(reply) && tx is None,
            EngineReply::Transaction(reply) => events is Some && seen == events && tx == Some(
                reply,
            ),
            EngineReply::Env(_) => false,
        },
        before.has_gas_price(info.executed_epoch, seen),
        call_ensures(
            LocalExec::get_epoch_start_timestamp_and_rgp,
            (before, info.executed_epoch, &seen, &tx),
            start,
        ),
        exists|session: &mut LocalExec|
            *session == *before && *final(session) == *after && #[trigger] call_ensures(
                LocalExec::execution_engine_execute_with_tx_info_impl::<S, E>,
                (
                    session,
                    &info,
                    &override_kind,
                    EngineStage::EpochStart { inputs, events },
                    Some(reply),
                ),
                r,
            ),
    ensures
        *after == *before,
        match start {
            Step::Ask(request) => r == EngineStep::<S, E>::Ask(
                request,
                EngineStage::EpochStart { inputs, events: seen },
            ),
            Step::Done(Err(err)) => r == EngineStep::<S, E>::Done(Err(err)),
            Step::Done(Ok((time, _))) => {
                &&& r matches EngineStep::Execute(call)
                &&& call.inputs == inputs
                &&& call.epoch_start_timestamp == time
            },
        },
{
    let at = EngineStage::EpochStart { inputs, events };
    assert(engine_reply_fits(before, &info, at, Some(reply)));
    lemma_epoch_start_is_determined(before, info.executed_epoch, seen, tx, start);
}

/// What is found of the start of an epoch depends on the answers of the node alone.
pub proof fn lemma_epoch_start_is_determined(
    exec: &LocalExec,
    epoch: u64,
    events: Option<EventsReply>,
    tx: Option<TransactionReply>,
    start: Step<Result<(u64, u64), LocalExecError>>,
)
    requires
        exec.epoch_start_step(epoch, events, tx, start),
    ensures
        forall|other: Step<Result<(u64, u64), LocalExecError>>| #[trigger]
            exec.epoch_start_step(epoch, events, tx, other) ==> other == start,
{
    if let Some(Ok(found)) = events {
        if exists|i: int| is_first_start(found@, epoch, i) {
            let i = choose|i: int| is_first_start(found@, epoch, i);
            assert(is_first_start(found@, epoch, i));
        }
    }
}

/// The objects that a replay needed are all objects of the storage, in their order.
pub proof fn law_the_required_objects_are_all_objects<S, E>(
    exec: &LocalExec,
    info: Arc<OnChainTransactionInfo>,
    outcome: EngineOutcome<S, E>,
    all: Vec<Object>,
    state: ExecutionSandboxState<S, E>,
)
    requires
        call_ensures(Storage::all_objects, (&exec.storage,), all),
        call_ensures(LocalExec::finish_execution::<S, E>, (exec, &info, outcome), Ok(state)),
    ensures
        state.required_objects@ == all@,
{
}

/// Whether a replay stands at the same point with the same contents.
pub open spec fn is_same_engine_stage(a: EngineStage, b: EngineStage) -> bool {
    match (a, b) {
        (EngineStage::Env(a), EngineStage::Env(b)) => is_same_stage(a, b),
        (
            EngineStage::EpochStart { inputs, events },
            EngineStage::EpochStart { inputs: other, events: other_events },
        ) => inputs@ == other@ && events == other_events,
        _ => a == b,
    }
}

/// Whether two calls of the engine are the same.
pub open spec fn is_same_call(a: EngineCall, b: EngineCall) -> bool {
    &&& a.shared_object_refs@ == b.shared_object_refs@
    &&& a.inputs@ == b.inputs@
    &&& a.kind == b.kind
    &&& a.sender == b.sender
    &&& a.gas@ == b.gas@
    &&& a.gas_budget == b.gas_budget
    &&& a.gas_price == b.gas_price
    &&& a.tx_digest == b.tx_digest
    &&& a.dependencies@ == b.dependencies@
    &&& a.executed_epoch == b.executed_epoch
    &&& a.epoch_start_timestamp == b.epoch_start_timestamp
    &&& a.protocol_version == b.protocol_version
}

/// Whether two steps of a replay come to the same.
pub open spec fn is_same_engine_step<S, E>(a: EngineStep<S, E>, b: EngineStep<S, E>) -> bool {
    match (a, b) {
        (EngineStep::Ask(request, stage), EngineStep::Ask(other, other_stage)) => is_same_request(
            request,
            other,
        ) && is_same_engine_stage(stage, other_stage),
        (EngineStep::Continue(stage), EngineStep::Continue(other)) => is_same_engine_stage(
            stage,
            other,
        ),
        (EngineStep::Execute(call), EngineStep::Execute(other)) => is_same_call(call, other),
        (EngineStep::Done(Ok(state)), EngineStep::Done(Ok(other))) => {
            &&& state.transaction_info == other.transaction_info
            &&& state.required_objects@ == other.required_objects@
            &&& state.local_exec_effects == other.local_exec_effects
            &&& state.local_exec_temporary_store is None && other.local_exec_temporary_store is None
            &&& state.local_exec_status is Ok && other.local_exec_status is Ok
        },
        (EngineStep::Done(Err(err)), EngineStep::Done(Err(other))) => err == other,
        _ => false,
    }
}

/// A step of a replay comes to the same whenever it is made with the same answer on the same
/// session.
pub proof fn lemma_replay_is_determined<S, E>(
    before: &LocalExec,
    info: Arc<OnChainTransactionInfo>,
    override_kind: Option<Arc<TransactionKind>>,
    at: EngineStage,
    reply: Option<EngineReply>,
    after: &LocalExec,
    r: EngineStep<S, E>,
    other_after: &LocalExec,
    other_r: EngineStep<S, E>,
)
    requires
        engine_reply_fits(before, &info, at, reply),
        engine_step(before, info, override_kind, at, reply, after, r),
        engine_step(before, info, override_kind, at, reply, other_after, other_r),
    ensures
        after.storage@ == other_after.storage@,
        *after == (LocalExec { storage: after.storage, ..*other_after }),
        is_same_engine_step(r, other_r),
{
    match at {
        EngineStage::Begin => {
            if is_genesis(&info, before.params.genesis_marker_tx) {
                assert(r->Done_0->Ok_0.required_objects@
                    =~= other_r->Done_0->Ok_0.required_objects@);
            } else {
                lemma_env_is_determined(
                    before,
                    info,
                    override_kind,
                    EnvStage::Begin,
                    None,
                    after,
                    r,
                    other_after,
                    other_r,
                );
            }
        },
        EngineStage::Env(stage) => {
            lemma_env_is_determined(
                before,
                info,
                override_kind,
                stage,
                env_reply_of(reply),
                after,
                r,
                other_after,
                other_r,
            );
        },
        EngineStage::EpochStart { inputs, events } => {
            let seen = events_of(events, reply);
            let start = choose|start: Step<Result<(u64, u64), LocalExecError>>|
                {
                    &&& #[trigger] before.epoch_start_step(
                        info.executed_epoch,
                        seen,
                        transaction_of(reply),
                        start,
                    )
                    &&& after_epoch_start(&info, override_kind, inputs, seen, start, r)
                };
            lemma_epoch_start_is_determined(
                before,
                info.executed_epoch,
                seen,
                transaction_of(reply),
                start,
            );
        },
    }
}

proof fn lemma_env_is_determined<S, E>(
    before: &LocalExec,
    info: Arc<OnChainTransactionInfo>,
    override_kind: Option<Arc<TransactionKind>>,
    stage: EnvStage,
    reply: Option<EnvReply>,
    after: &LocalExec,
    r: EngineStep<S, E>,
    other_after: &LocalExec,
    other_r: EngineStep<S, E>,
)
    requires
        env_reply_fits(&info, before.storage@, stage, reply),
        exists|inner: Progress<EnvStage, InputsResult>|
            {
                &&& #[trigger] env_step(before, &info, stage, reply, after, inner)
                &&& after_env(after, &info, override_kind, inner, r)
            },
        exists|inner: Progress<EnvStage, InputsResult>|
            {
                &&& #[trigger] env_step(before, &info, stage, reply, other_after, inner)
                &&& after_env(other_after, &info, override_kind, inner, other_r)
            },
    ensures
        after.storage@ == other_after.storage@,
        *after == (LocalExec { storage: after.storage, ..*other_after }),
        is_same_engine_step(r, other_r),
{
    let inner = choose|inner: Progress<EnvStage, InputsResult>|
        {
            &&& #[trigger] env_step(before, &info, stage, reply, after, inner)
            &&& after_env(after, &info, override_kind, inner, r)
        };
    let other = choose|inner: Progress<EnvStage, InputsResult>|
        {
            &&& #[trigger] env_step(before, &info, stage, reply, other_after, inner)
            &&& after_env(other_after, &info, override_kind, inner, other_r)
        };
    lemma_preparation_is_determined(
        before,
        &info,
        stage,
        reply,
        after,
        inner,
        other_after,
        other,
    );
}

} // verus!
