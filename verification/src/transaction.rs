//! Replaying one transaction, from its digest to its outcome.
use crate::epoch::{first_says, has_no_record, lemma_gas_price_is_there};
use crate::error::LocalExecError;
use crate::event::{all_say, is_first_start, says, EventsReply, SuiEvent};
use crate::local_exec::LocalExec;
use crate::protocol::TransactionReply;
use crate::replay::{
    engine_reply_fits, engine_step, is_same_call, is_same_engine_stage,
    lemma_epoch_start_is_determined, lemma_replay_is_determined, EngineCall, EngineReply,
    EngineStage, EngineStep,
};
use crate::request::{Request, RequestView, Step};
use crate::sandbox::ExecutionSandboxState;
use crate::setup::{is_same_request, EnvStage};
use crate::types::{
    OnChainTransactionInfo, TransactionDigest, TransactionKind, TransactionRecord,
};
use std::sync::Arc;
use vstd::prelude::*;

verus! {

broadcast use {
    vstd::std_specs::btree::group_btree_axioms,
    vstd::laws_cmp::group_laws_cmp,
};

/// Where the replay of a transaction stands.
#[derive(Debug, PartialEq)]
pub enum ReplayStage {
    /// Nothing has been asked yet.
    Begin,
    /// The transaction is looked up, then the start of its epoch. Here is what the node
    /// has answered.
    Resolve { tx: Option<TransactionReply>, events: Option<EventsReply> },
    /// The transaction is known, and the engine is made ready for it.
    Engine { info: Arc<OnChainTransactionInfo>, stage: EngineStage },
}

/// How far the replay of a transaction came.
#[derive(Debug)]
pub enum ReplayStep<S, E> {
    /// Put the request and go on with the reply.
    Ask(Request, ReplayStage),
    /// There is nothing to ask; go on.
    Continue(ReplayStage),
    /// Call the execution engine for the transaction.
    Execute(Arc<OnChainTransactionInfo>, EngineCall),
    Done(Result<ExecutionSandboxState<S, E>, LocalExecError>),
}

/// The three answers on which a transaction is known: the transaction, the events
/// that start an epoch, and the transaction that started its epoch.
pub struct ResolveReplies {
    pub tx: Option<TransactionReply>,
    pub events: Option<EventsReply>,
    pub epoch_tx: Option<TransactionReply>,
}

/// The answers that are there after a reply.
pub open spec fn resolve_replies(
    tx: Option<TransactionReply>,
    events: Option<EventsReply>,
    reply: Option<EngineReply>,
) -> ResolveReplies {
    match reply {
        Some(EngineReply::Events(reply)) => ResolveReplies {
            tx,
            events: Some(reply),
            epoch_tx: None,
        },
        Some(EngineReply::Transaction(reply)) => if tx is None {
            ResolveReplies { tx: Some(reply), events, epoch_tx: None }
        } else {
            ResolveReplies { tx, events, epoch_tx: Some(reply) }
        },
        _ => ResolveReplies { tx, events, epoch_tx: None },
    }
}

/// What the replay of a transaction is told next: nothing at first and after
/// `ReplayStep::Continue`, else the answer to what was asked for last.
pub open spec fn replay_reply_fits(
    exec: &LocalExec,
    at: ReplayStage,
    reply: Option<EngineReply>,
) -> bool {
    match at {
        ReplayStage::Begin => reply is None,
        ReplayStage::Resolve { tx, events } => {
            let known = resolve_replies(tx, events, reply);
            &&& match (tx, events) {
                (Some(_), None) => reply matches Some(EngineReply::Events(_)),
                _ => reply matches Some(EngineReply::Transaction(_)),
            }
            &&& known.tx matches Some(Ok(record)) ==> (record.input_objects is Ok
                ==> exec.has_gas_price(record.effects.executed_epoch, known.events))
        },
        ReplayStage::Engine { info, stage } => engine_reply_fits(exec, &info, stage, reply),
    }
}

/// What becomes of the replay when the engine has been made ready so far.
pub open spec fn after_engine<S, E>(
    info: Arc<OnChainTransactionInfo>,
    inner: EngineStep<S, E>,
    r: ReplayStep<S, E>,
) -> bool {
    match inner {
        EngineStep::Ask(request, stage) => r == ReplayStep::<S, E>::Ask(
            request,
            ReplayStage::Engine { info, stage },
        ),
        EngineStep::Continue(stage) => r == ReplayStep::<S, E>::Continue(
            ReplayStage::Engine { info, stage },
        ),
        EngineStep::Execute(call) => r == ReplayStep::<S, E>::Execute(info, call),
        EngineStep::Done(result) => r == ReplayStep::<S, E>::Done(result),
    }
}

/// What becomes of the replay when the transaction has been looked up so far.
pub open spec fn after_resolve<S, E>(
    before: &LocalExec,
    known: ResolveReplies,
    resolved: Step<Result<OnChainTransactionInfo, LocalExecError>>,
    after: &LocalExec,
    r: ReplayStep<S, E>,
) -> bool {
    match resolved {
        Step::Ask(request) => *after == *before && r == ReplayStep::<S, E>::Ask(
            request,
            ReplayStage::Resolve { tx: known.tx, events: known.events },
        ),
        Step::Done(Err(err)) => *after == *before && r == ReplayStep::<S, E>::Done(Err(err)),
        Step::Done(Ok(info)) => exists|inner: EngineStep<S, E>|
            {
                &&& #[trigger] engine_step(
                    before,
                    Arc::new(info),
                    None,
                    EngineStage::Begin,
                    None,
                    after,
                    inner,
                )
                &&& after_engine(Arc::new(info), inner, r)
            },
    }
}

/// One step of the replay of a transaction.
pub open spec fn replay_step<S, E>(
    before: &LocalExec,
    tx_digest: TransactionDigest,
    at: ReplayStage,
    reply: Option<EngineReply>,
    after: &LocalExec,
    r: ReplayStep<S, E>,
) -> bool {
    match at {
        ReplayStage::Begin => {
            &&& *after == *before
            &&& r matches ReplayStep::Ask(request, ReplayStage::Resolve { tx: None, events: None })
            &&& request@ == RequestView::Transaction(tx_digest)
        },
        ReplayStage::Resolve { tx, events } => exists|
            resolved: Step<Result<OnChainTransactionInfo, LocalExecError>>,
        |
            {
                &&& #[trigger] before.resolve_step(
                    tx_digest,
                    resolve_replies(tx, events, reply).tx,
                    resolve_replies(tx, events, reply).events,
                    resolve_replies(tx, events, reply).epoch_tx,
                    resolved,
                )
                &&& after_resolve(before, resolve_replies(tx, events, reply), resolved, after, r)
            },
        ReplayStage::Engine { info, stage } => exists|inner: EngineStep<S, E>|
            {
                &&& #[trigger] engine_step(before, info, None, stage, reply, after, inner)
                &&& after_engine(info, inner, r)
            },
    }
}

impl LocalExec {
    /// Whether one of the tables of protocol versions has been filled.
    pub open spec fn has_tables(&self) -> bool {
        !self.protocol_version_system_package_table@.is_empty()
            || !self.protocol_version_epoch_table@.is_empty()
    }

    fn go_on_with_engine<S, E>(
        info: Arc<OnChainTransactionInfo>,
        inner: EngineStep<S, E>,
    ) -> (r: ReplayStep<S, E>)
        ensures
            after_engine(info, inner, r),
    {
        match inner {
            EngineStep::Ask(request, stage) => ReplayStep::Ask(
                request,
                ReplayStage::Engine { info, stage },
            ),
            EngineStep::Continue(stage) => ReplayStep::Continue(
                ReplayStage::Engine { info, stage },
            ),
            EngineStep::Execute(call) => ReplayStep::Execute(info, call),
            EngineStep::Done(result) => ReplayStep::Done(result),
        }
    }

    /// Replays a transaction on the execution engine: it is looked up, the engine is made
    /// ready for it, and then the engine is to be called. The tables of protocol versions must
    /// have been filled.
    ///
    /// `at` is where the replay stands and `reply` the answer to what was asked for last.
    pub fn execution_engine_execute_impl<S, E>(
        &mut self,
        tx_digest: &TransactionDigest,
        at: ReplayStage,
        reply: Option<EngineReply>,
    ) -> (r: ReplayStep<S, E>)
        requires
            old(self).has_tables(),
            replay_reply_fits(old(self), at, reply),
        ensures
            replay_step(old(self), *tx_digest, at, reply, final(self), r),
    {
        let no_override: Option<Arc<TransactionKind>> = None;
        match at {
            ReplayStage::Begin => ReplayStep::Ask(
                Request::Transaction(*tx_digest),
                ReplayStage::Resolve { tx: None, events: None },
            ),
            ReplayStage::Resolve { tx, events } => {
                let (tx, events, epoch_tx) = match reply {
                    Some(EngineReply::Events(reply)) => (tx, Some(reply), None),
                    Some(EngineReply::Transaction(reply)) => if tx.is_none() {
                        (Some(reply), events, None)
                    } else {
                        (tx, events, Some(reply))
                    },
                    _ => (tx, events, None),
                };
                match self.resolve_tx_components(tx_digest, &tx, &events, &epoch_tx) {
                    Step::Ask(request) => ReplayStep::Ask(
                        request,
                        ReplayStage::Resolve { tx, events },
                    ),
                    Step::Done(Err(err)) => ReplayStep::Done(Err(err)),
                    Step::Done(Ok(info)) => {
                        let info = Arc::new(info);
                        let inner = self.execution_engine_execute_with_tx_info_impl(
                            &info,
                            &no_override,
                            EngineStage::Begin,
                            None,
                        );
                        Self::go_on_with_engine(info, inner)
                    },
                }
            },
            ReplayStage::Engine { info, stage } => {
                let inner = self.execution_engine_execute_with_tx_info_impl(
                    &info,
                    &no_override,
                    stage,
                    reply,
                );
                Self::go_on_with_engine(info, inner)
            },
        }
    }

    /// What follows on a replay on the execution engine when the transaction is to be
    /// executed by way of a certificate: the state of that replay is used, unless it failed.
    pub fn certificate_execute<S, E>(
        engine_result: Result<ExecutionSandboxState<S, E>, LocalExecError>,
    ) -> (r: ReplayRoute<S, E>)
        ensures
            r == match engine_result {
                Ok(state) => ReplayRoute::<S, E>::Certificate(state),
                Err(err) => ReplayRoute::<S, E>::Done(Err(err)),
            },
    {
        match engine_result {
            Ok(state) => ReplayRoute::Certificate(state),
            Err(err) => ReplayRoute::Done(Err(err)),
        }
    }

    /// What follows on a replay on the execution engine when that is all: nothing.
    pub fn execution_engine_execute<S, E>(
        engine_result: Result<ExecutionSandboxState<S, E>, LocalExecError>,
    ) -> (r: ReplayRoute<S, E>)
        ensures
            r == ReplayRoute::<S, E>::Done(engine_result),
    {
        ReplayRoute::Done(engine_result)
    }

    /// What follows on a replay on the execution engine.
    pub fn execute_transaction<S, E>(
        use_authority: bool,
        engine_result: Result<ExecutionSandboxState<S, E>, LocalExecError>,
    ) -> (r: ReplayRoute<S, E>)
        ensures
            r == match engine_result {
                Ok(state) => if use_authority {
                    ReplayRoute::<S, E>::Certificate(state)
                } else {
                    ReplayRoute::<S, E>::Done(Ok(state))
                },
                Err(err) => ReplayRoute::<S, E>::Done(Err(err)),
            },
    {
        if use_authority {
            Self::certificate_execute(engine_result)
        } else {
            Self::execution_engine_execute(engine_result)
        }
    }
}

/// What follows on a replay on the execution engine.
#[derive(Debug)]
pub enum ReplayRoute<S, E> {
    /// Replay the transaction once more by way of a certificate, with this state.
    Certificate(ExecutionSandboxState<S, E>),
    Done(Result<ExecutionSandboxState<S, E>, LocalExecError>),
}

/// A replay begins with the transaction itself.
pub proof fn law_a_replay_begins_with_its_transaction<S, E>(
    before: &LocalExec,
    tx_digest: &TransactionDigest,
    after: &LocalExec,
    r: ReplayStep<S, E>,
)
    requires
        before.has_tables(),
        exists|session: &mut LocalExec|
            *session == *before && *final(session) == *after && #[trigger] call_ensures(
                LocalExec::execution_engine_execute_impl::<S, E>,
                (session, tx_digest, ReplayStage::Begin, None::<EngineReply>),
                r,
            ),
    ensures
        *after == *before,
        r matches ReplayStep::Ask(
            Request::Transaction(asked),
            ReplayStage::Resolve { tx: None, events: None },
        ) && asked == *tx_digest,
{
}

/// What the node answers is kept while a transaction is looked up: first the transaction, then the
/// events, and then the transaction that started its epoch. When all are there, the replay of
/// the transaction as the node reports it begins.
pub proof fn law_a_replay_looks_its_transaction_up<S, E>(
    before: &LocalExec,
    tx_digest: &TransactionDigest,
    record: TransactionRecord,
    events: Vec<SuiEvent>,
    epochs: Seq<u64>,
    versions: Seq<u64>,
    i: int,
    gas_price: u64,
    at: ReplayStage,
    reply: EngineReply,
    after: &LocalExec,
    r: ReplayStep<S, E>,
)
    requires
        before.has_tables(),
        record.input_objects is Ok,
        !has_no_record(before.is_testnet, record.effects.executed_epoch),
        all_say(events@, epochs, versions),
        first_says(epochs, record.effects.executed_epoch, i),
        says(events@[i], "reference_gas_price"@, gas_price),
        exists|session: &mut LocalExec|
            *session == *before && *final(session) == *after && #[trigger] call_ensures(
                LocalExec::execution_engine_execute_impl::<S, E>,
                (session, tx_digest, at, Some(reply)),
                r,
            ),
    ensures
        at == (ReplayStage::Resolve { tx: None, events: None }) && reply == EngineReply::Transaction(
            Ok(record),
        ) ==> *after == *before && r == ReplayStep::<S, E>::Ask(
            Request::EpochChangeEvents { reverse: true },
            ReplayStage::Resolve { tx: Some(Ok(record)), events: None },
        ),
        at == (ReplayStage::Resolve { tx: Some(Ok(record)), events: None }) && reply
            == EngineReply::Events(Ok(events)) ==> *after == *before && r == ReplayStep::<
            S,
            E,
        >::Ask(
            Request::Transaction(events@[i].tx_digest),
            ReplayStage::Resolve { tx: Some(Ok(record)), events: Some(Ok(events)) },
        ),
        at == (ReplayStage::Resolve { tx: Some(Ok(record)), events: Some(Ok(events)) }) ==> (
        reply matches EngineReply::Transaction(Ok(epoch_record)) ==> (
        *epoch_record.kind matches TransactionKind::ChangeEpoch { epoch_start_timestamp_ms, .. }
            ==> match r {
            ReplayStep::Ask(request, next) => {
                &&& next matches ReplayStage::Engine {
                    info,
                    stage: EngineStage::Env(EnvStage::Modified),
                }
                &&& info.tx_digest == *tx_digest
                &&& info.kind == record.kind
                &&& info.sender == record.sender
                &&& info.gas_budget == record.gas_data.budget
                &&& info.gas_price == record.gas_data.price
                &&& info.effects == record.effects
                &&& info.executed_epoch == record.effects.executed_epoch
                &&& info.epoch_start_timestamp == epoch_start_timestamp_ms
                &&& info.reference_gas_price == gas_price
                &&& request matches Request::VersionedObjects(keys)
                &&& keys@ == record.effects.modified_at_versions@
            },
            ReplayStep::Done(Ok(state)) => {
                &&& *tx_digest == before.params.genesis_marker_tx || (record.sender.hi == 0
                    && record.sender.lo == 0)
                &&& state.local_exec_effects == record.effects
            },
            ReplayStep::Done(Err(err)) => err == (LocalExecError::ProtocolVersionNotFound {
                epoch: record.effects.executed_epoch,
            }),
            _ => false,
        })),
{
    let epoch = record.effects.executed_epoch;
    lemma_gas_price_is_there(before, epoch, events, epochs, versions, i, gas_price);
    assert(before.has_gas_price(epoch, None));
    if at == (ReplayStage::Resolve { tx: None, events: None }) && reply
        == EngineReply::Transaction(Ok(record)) {
        assert(replay_reply_fits(before, at, Some(reply)));
    }
    if at == (ReplayStage::Resolve { tx: Some(Ok(record)), events: Some(Ok(events)) }) {
        if let EngineReply::Transaction(Ok(epoch_record)) = reply {
            if let TransactionKind::ChangeEpoch { epoch_start_timestamp_ms, .. } =
                *epoch_record.kind {
                assert(replay_reply_fits(before, at, Some(reply)));
                lemma_epoch_start_is(
                    before,
                    epoch,
                    events,
                    i,
                    epoch_record,
                    epoch_start_timestamp_ms,
                    gas_price,
                );
            }
        }
    }
}

proof fn lemma_epoch_start_is(
    exec: &LocalExec,
    epoch: u64,
    events: Vec<SuiEvent>,
    i: int,
    record: TransactionRecord,
    time: u64,
    gas_price: u64,
)
    requires
        !has_no_record(exec.is_testnet, epoch),
        is_first_start(events@, epoch, i),
        events@[i].number("reference_gas_price"@) == Some(gas_price),
        *record.kind matches TransactionKind::ChangeEpoch { epoch_start_timestamp_ms, .. }
            && epoch_start_timestamp_ms == time,
    ensures
        forall|start: Step<Result<(u64, u64), LocalExecError>>| #[trigger]
            exec.epoch_start_step(
                epoch,
                Some(Ok::<_, LocalExecError>(events)),
                Some(Ok::<_, LocalExecError>(record)),
                start,
            ) ==> start == Step::Done(Ok::<_, LocalExecError>((time, gas_price))),
{
}

/// What is made ready for a transaction is for this transaction alone: each later step is for the
/// transaction of the step before.
pub proof fn law_a_replay_stays_with_its_transaction<S, E>(
    before: &LocalExec,
    tx_digest: &TransactionDigest,
    info: Arc<OnChainTransactionInfo>,
    stage: EngineStage,
    reply: Option<EngineReply>,
    after: &LocalExec,
    r: ReplayStep<S, E>,
)
    requires
        before.has_tables(),
        engine_reply_fits(before, &info, stage, reply),
        exists|session: &mut LocalExec|
            *session == *before && *final(session) == *after && #[trigger] call_ensures(
                LocalExec::execution_engine_execute_impl::<S, E>,
                (session, tx_digest, ReplayStage::Engine { info, stage }, reply),
                r,
            ),
    ensures
        match r {
            ReplayStep::Ask(_, next) => next matches ReplayStage::Engine { info: kept, .. }
                && kept == info,
            ReplayStep::Continue(next) => next matches ReplayStage::Engine { info: kept, .. }
                && kept == info,
            ReplayStep::Execute(kept, call) => kept == info && call.tx_digest == info.tx_digest
                && call.kind == info.kind && call.gas_budget == info.gas_budget && call.gas_price
                == info.gas_price,
            ReplayStep::Done(_) => true,
        },
{
    let inner = choose|inner: EngineStep<S, E>|
        {
            &&& #[trigger] engine_step(before, info, None, stage, reply, after, inner)
            &&& after_engine(info, inner, r)
        };
    if let EngineStep::Execute(call) = inner {
        lemma_call_is_for(before, info, stage, reply, after, inner);
    }
}

proof fn lemma_call_is_for<S, E>(
    before: &LocalExec,
    info: Arc<OnChainTransactionInfo>,
    stage: EngineStage,
    reply: Option<EngineReply>,
    after: &LocalExec,
    inner: EngineStep<S, E>,
)
    requires
        engine_step(before, info, None, stage, reply, after, inner),
    ensures
        inner matches EngineStep::Execute(call) ==> call.tx_digest == info.tx_digest && call.kind
            == info.kind && call.gas_budget == info.gas_budget && call.gas_price
            == info.gas_price,
{
}

/// A failed replay stays failed. One that did not fail is the result, or goes on by way of a
/// certificate if that was asked for.
pub proof fn law_a_certificate_follows_only_if_wanted<S, E>(
    use_authority: bool,
    engine_result: Result<ExecutionSandboxState<S, E>, LocalExecError>,
    r: ReplayRoute<S, E>,
)
    requires
        call_ensures(LocalExec::execute_transaction::<S, E>, (use_authority, engine_result), r),
    ensures
        match (engine_result, use_authority) {
            (Ok(state), true) => r == ReplayRoute::<S, E>::Certificate(state),
            _ => r == ReplayRoute::<S, E>::Done(engine_result),
        },
{
}

/// The two ways on their own: a certificate follows on every replay that did not fail, or
/// nothing does.
pub proof fn law_each_route_is_taken<S, E>(
    engine_result: Result<ExecutionSandboxState<S, E>, LocalExecError>,
    by_certificate: ReplayRoute<S, E>,
    by_engine: ReplayRoute<S, E>,
)
    requires
        call_ensures(LocalExec::certificate_execute::<S, E>, (engine_result,), by_certificate),
        call_ensures(LocalExec::execution_engine_execute::<S, E>, (engine_result,), by_engine),
    ensures
        by_engine == ReplayRoute::<S, E>::Done(engine_result),
        engine_result matches Ok(state) ==> by_certificate == ReplayRoute::<S, E>::Certificate(
            state,
        ),
        engine_result is Err ==> by_certificate == ReplayRoute::<S, E>::Done(engine_result),
{
}

/// Whether the same is known of a transaction.
pub open spec fn is_same_info(a: OnChainTransactionInfo, b: OnChainTransactionInfo) -> bool {
    &&& a.tx_digest == b.tx_digest
    &&& a.raw_transaction == b.raw_transaction
    &&& a.sender == b.sender
    &&& a.input_objects@ == b.input_objects@
    &&& a.kind == b.kind
    &&& a.modified_at_versions@ == b.modified_at_versions@
    &&& a.shared_object_refs@ == b.shared_object_refs@
    &&& a.gas@ == b.gas@
    &&& a.gas_budget == b.gas_budget
    &&& a.gas_price == b.gas_price
    &&& a.executed_epoch == b.executed_epoch
    &&& a.dependencies@ == b.dependencies@
    &&& a.effects == b.effects
    &&& a.protocol_version == b.protocol_version
    &&& a.epoch_start_timestamp == b.epoch_start_timestamp
    &&& a.reference_gas_price == b.reference_gas_price
}

/// Whether a reply is the next of the three answers on which a transaction is known, behind
/// those that are there.
pub open spec fn is_next_answer(
    tx: Option<TransactionReply>,
    events: Option<EventsReply>,
    reply: EngineReply,
    known: ResolveReplies,
) -> bool {
    match (tx, events, reply) {
        (None, _, EngineReply::Transaction(answer)) => {
            known.tx == Some(answer) && known.events == events && known.epoch_tx is None
        },
        (Some(_), None, EngineReply::Events(answer)) => {
            known.tx == tx && known.events == Some(answer) && known.epoch_tx is None
        },
        (Some(_), Some(_), EngineReply::Transaction(answer)) => {
            known.tx == tx && known.events == events && known.epoch_tx == Some(answer)
        },
        _ => false,
    }
}

/// While a transaction is looked up, a replay does what the look-up does with the answers that
/// are there: what it asks for is asked for, and its error is the error. With the transaction
/// the replay begins: what the transaction changed is asked for at the old versions, under its
/// protocol version. A genesis transaction is not replayed.
pub proof fn law_a_replay_follows_the_look_up<S, E>(
    before: &LocalExec,
    tx_digest: &TransactionDigest,
    tx: Option<TransactionReply>,
    events: Option<EventsReply>,
    reply: EngineReply,
    known: ResolveReplies,
    resolved: Step<Result<OnChainTransactionInfo, LocalExecError>>,
    after: &LocalExec,
    r: ReplayStep<S, E>,
)
    requires
        before.has_tables(),
        is_next_answer(tx, events, reply, known),
        known.tx matches Some(Ok(record)) ==> (record.input_objects is Ok ==> before.has_gas_price(
            record.effects.executed_epoch,
            known.events,
        )),
        call_ensures(
            LocalExec::resolve_tx_components,
            (before, tx_digest, &known.tx, &known.events, &known.epoch_tx),
            resolved,
        ),
        exists|session: &mut LocalExec|
            *session == *before && *final(session) == *after && #[trigger] call_ensures(
                LocalExec::execution_engine_execute_impl::<S, E>,
                (session, tx_digest, ReplayStage::Resolve { tx, events }, Some(reply)),
                r,
            ),
    ensures
        match resolved {
            Step::Ask(request) => *after == *before && r == ReplayStep::<S, E>::Ask(
                request,
                ReplayStage::Resolve { tx: known.tx, events: known.events },
            ),
            Step::Done(Err(err)) => *after == *before && r == ReplayStep::<S, E>::Done(Err(err)),
            Step::Done(Ok(info)) => if info.tx_digest == before.params.genesis_marker_tx || (
            info.sender.hi == 0 && info.sender.lo == 0) {
                &&& *after == *before
                &&& r matches ReplayStep::Done(Ok(state))
                &&& is_same_info(*state.transaction_info, info)
                &&& state.local_exec_effects == info.effects
            } else {
                &&& *after == (LocalExec {
                    current_protocol_version: info.protocol_version,
                    ..*before
                })
                &&& r matches ReplayStep::Ask(
                    Request::VersionedObjects(keys),
                    ReplayStage::Engine {
                        info: kept,
                        stage: EngineStage::Env(EnvStage::Modified),
                    },
                )
                &&& keys@ == info.modified_at_versions@
                &&& is_same_info(*kept, info)
            },
        },
{
    let at = ReplayStage::Resolve { tx, events };
    let had = resolve_replies(tx, events, Some(reply));
    assert(had.tx == known.tx && had.events == known.events && had.epoch_tx == known.epoch_tx);
    assert(replay_reply_fits(before, at, Some(reply)));
    let used = choose|used: Step<Result<OnChainTransactionInfo, LocalExecError>>|
        {
            &&& #[trigger] before.resolve_step(
                *tx_digest,
                resolve_replies(tx, events, Some(reply)).tx,
                resolve_replies(tx, events, Some(reply)).events,
                resolve_replies(tx, events, Some(reply)).epoch_tx,
                used,
            )
            &&& after_resolve(
                before,
                resolve_replies(tx, events, Some(reply)),
                used,
                after,
                r,
            )
        };
    lemma_look_up_is_determined(
        before,
        *tx_digest,
        known.tx,
        known.events,
        known.epoch_tx,
        resolved,
        used,
    );
}

proof fn lemma_look_up_is_determined(
    exec: &LocalExec,
    tx_digest: TransactionDigest,
    tx: Option<TransactionReply>,
    events: Option<EventsReply>,
    epoch_tx: Option<TransactionReply>,
    a: Step<Result<OnChainTransactionInfo, LocalExecError>>,
    b: Step<Result<OnChainTransactionInfo, LocalExecError>>,
)
    requires
        exec.resolve_step(tx_digest, tx, events, epoch_tx, a),
        exec.resolve_step(tx_digest, tx, events, epoch_tx, b),
    ensures
        match (a, b) {
            (Step::Done(Ok(a)), Step::Done(Ok(b))) => is_same_info(a, b),
            _ => a == b,
        },
{
    if let Some(Ok(record)) = tx {
        if record.input_objects is Ok {
            let epoch = record.effects.executed_epoch;
            let start = choose|start: Step<Result<(u64, u64), LocalExecError>>| #[trigger]
                exec.epoch_start_step(epoch, events, epoch_tx, start) && match start {
                    Step::Ask(request) => a == Step::<
                        Result<OnChainTransactionInfo, LocalExecError>,
                    >::Ask(request),
                    Step::Done(Err(err)) => a == Step::Done(Err::<OnChainTransactionInfo, _>(err)),
                    Step::Done(Ok(epoch_start)) => exec.resolves_to(
                        tx_digest,
                        record,
                        epoch_start,
                        a,
                    ),
                };
            lemma_epoch_start_is_determined(exec, epoch, events, epoch_tx, start);
            if start matches Step::Done(Ok(_)) {
                assert(exec.resolves_to(tx_digest, record, start->Done_0->Ok_0, a));
                assert(exec.resolves_to(tx_digest, record, start->Done_0->Ok_0, b));
            }
        }
    }
}

/// Once a transaction is known, its replay does what making the engine ready for it does: it
/// asks the same and goes on in the same way, it has the engine called with the same, and it
/// ends in the same.
pub proof fn law_a_replay_follows_the_engine<S, E>(
    before: &LocalExec,
    tx_digest: &TransactionDigest,
    info: Arc<OnChainTransactionInfo>,
    stage: EngineStage,
    reply: Option<EngineReply>,
    made_ready: &LocalExec,
    inner: EngineStep<S, E>,
    after: &LocalExec,
    r: ReplayStep<S, E>,
)
    requires
        before.has_tables(),
        engine_reply_fits(before, &info, stage, reply),
        exists|session: &mut LocalExec|
            *session == *before && *final(session) == *made_ready && #[trigger] call_ensures(
                LocalExec::execution_engine_execute_with_tx_info_impl::<S, E>,
                (session, &info, &None::<Arc<TransactionKind>>, stage, reply),
                inner,
            ),
        exists|session: &mut LocalExec|
            *session == *before && *final(session) == *after && #[trigger] call_ensures(
                LocalExec::execution_engine_execute_impl::<S, E>,
                (session, tx_digest, ReplayStage::Engine { info, stage }, reply),
                r,
            ),
    ensures
        after.storage@ == made_ready.storage@,
        *after == (LocalExec { storage: after.storage, ..*made_ready }),
        match inner {
            EngineStep::Ask(request, next) => {
                &&& r matches ReplayStep::Ask(asked, ReplayStage::Engine { info: kept, stage: at })
                &&& is_same_request(asked, request)
                &&& kept == info
                &&& is_same_engine_stage(at, next)
            },
            EngineStep::Continue(next) => {
                &&& r matches ReplayStep::Continue(ReplayStage::Engine { info: kept, stage: at })
                &&& kept == info
                &&& is_same_engine_stage(at, next)
            },
            EngineStep::Execute(call) => {
                &&& r matches ReplayStep::Execute(kept, made)
                &&& kept == info
                &&& is_same_call(made, call)
            },
            EngineStep::Done(Err(err)) => r == ReplayStep::<S, E>::Done(Err(err)),
            EngineStep::Done(Ok(state)) => {
                &&& r matches ReplayStep::Done(Ok(found))
                &&& found.transaction_info == state.transaction_info
                &&& found.required_objects@ == state.required_objects@
                &&& found.local_exec_effects == state.local_exec_effects
                &&& found.local_exec_status is Ok
            },
        },
{
    let other = choose|other: EngineStep<S, E>|
        {
            &&& #[trigger] engine_step(before, info, None, stage, reply, after, other)
            &&& after_engine(info, other, r)
        };
    lemma_replay_is_determined(
        before,
        info,
        None,
        stage,
        reply,
        after,
        other,
        made_ready,
        inner,
    );
}

} // verus!
