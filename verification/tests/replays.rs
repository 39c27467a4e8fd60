use std::sync::Arc;
use sui_replay::certificate::{CertificateAction, CertificateEvent, EpochPlan};
use sui_replay::checkpoints::{CheckpointRun, Verdict};
use sui_replay::error::{ErrorText, LocalExecError, SuiError};
use sui_replay::event::SuiEvent;
use sui_replay::inputs::InputStage;
use sui_replay::local_exec::{LocalExec, NetworkParams, ProtocolVersionSummary};
use sui_replay::replay::{EngineOutcome, EngineReply, EngineStage, EngineStep};
use sui_replay::request::{Request, Step};
use sui_replay::sandbox::{render_changes, ExecutionSandboxState, LineChange};
use sui_replay::setup::{EnvReply, EnvStage};
use sui_replay::transaction::{ReplayRoute, ReplayStage, ReplayStep};
use sui_replay::types::{
    Data, GasData, Object, ObjectDigest, OnChainTransactionInfo, Owner, SuiAddress,
    TransactionDigest, TransactionEffects, TransactionKind, TransactionRecord,
};

type State = ExecutionSandboxState<u8, String>;

fn tx(n: u128) -> TransactionDigest {
    TransactionDigest { hi: 0, lo: n }
}

fn session() -> LocalExec {
    let params = NetworkParams {
        genesis_marker_tx: tx(1000),
        testnet_genesis_tx: tx(1),
        safe_mode_tx: tx(2),
        epoch_change_struct_tag: "0x3::a::B".to_string(),
        builtin_package_ids: vec![],
        deepbook_package_id: (0, 0xdee9),
        num_retries_for_timeout: 2,
        sleep_period_for_timeout_ms: 10,
    };
    LocalExec::new(Ok(vec![]), params).unwrap()
}

fn effects(byte: u8, rendered: &str) -> Arc<TransactionEffects> {
    Arc::new(TransactionEffects {
        encoded: vec![1, byte],
        rendered: rendered.to_string(),
        executed_epoch: 9,
        modified_at_versions: vec![],
        shared_objects: vec![],
        dependencies: vec![],
    })
}

fn info(digest: u128, sender: u128) -> Arc<OnChainTransactionInfo> {
    Arc::new(OnChainTransactionInfo {
        tx_digest: tx(digest),
        raw_transaction: Arc::new(vec![7]),
        sender: SuiAddress { hi: 0, lo: sender },
        input_objects: vec![],
        kind: Arc::new(TransactionKind::Other { encoded: vec![4] }),
        modified_at_versions: vec![],
        shared_object_refs: vec![((0, 20), 2, ObjectDigest { hi: 0, lo: 0 })],
        gas: vec![((0, 30), 3, ObjectDigest { hi: 0, lo: 0 })],
        gas_budget: 5,
        gas_price: 6,
        executed_epoch: 9,
        dependencies: vec![tx(77)],
        effects: effects(0, "a\nb\n"),
        protocol_version: 4,
        epoch_start_timestamp: 1,
        reference_gas_price: 2,
    })
}

fn object(id: u128) -> Object {
    Object {
        id: (0, id),
        version: 1,
        digest: ObjectDigest { hi: 0, lo: 0 },
        previous_transaction: tx(50),
        owner: Owner::Immutable,
        data: Arc::new(Data::Package { modules: vec![] }),
    }
}

fn state(local: Arc<TransactionEffects>) -> State {
    ExecutionSandboxState {
        transaction_info: info(50, 8),
        required_objects: vec![object(3)],
        local_exec_temporary_store: Some(5),
        local_exec_effects: local,
        local_exec_status: Ok(()),
    }
}

fn event(epoch: u64) -> SuiEvent {
    let mut object = serde_json::Map::new();
    for (key, value) in [("epoch", epoch), ("protocol_version", 4), ("reference_gas_price", 2)] {
        object.insert(key.to_string(), serde_json::Value::from(value));
    }
    SuiEvent { tx_digest: tx(90), parsed_json: Arc::new(serde_json::Value::Object(object)) }
}

fn record(kind: TransactionKind) -> TransactionRecord {
    TransactionRecord {
        sender: SuiAddress { hi: 0, lo: 8 },
        raw_transaction: Arc::new(vec![7]),
        kind: Arc::new(kind),
        input_objects: Ok(vec![]),
        gas_data: GasData { payment: vec![], budget: 5, price: 6 },
        effects: effects(0, "a\n"),
        checkpoint: Some(1),
    }
}

#[test]
fn the_same_outcome_passes() {
    assert_eq!(state(effects(0, "other text")).check_effects(), Ok(()));
}

#[test]
fn another_outcome_is_a_fork() {
    let forked = state(effects(1, "a\nc\n"));
    assert!(forked.can_diff());
    match forked.check_effects() {
        Err(LocalExecError::EffectsForked { digest, diff, on_chain, local }) => {
            assert_eq!(digest, tx(50));
            assert_eq!(diff, "\n   a\n---b\n+++c\n");
            assert_eq!(on_chain, effects(0, "a\nb\n"));
            assert_eq!(local, effects(1, "a\nc\n"));
        }
        result => panic!("{:?}", result),
    }
}

#[test]
fn outcomes_differ_if_one_is_a_part_of_the_other() {
    let mut longer = state(effects(0, "a\n"));
    let mut local = TransactionEffects {
        encoded: vec![1, 0, 0],
        rendered: "a\n".to_string(),
        executed_epoch: 9,
        modified_at_versions: vec![],
        shared_objects: vec![],
        dependencies: vec![],
    };
    local.encoded.push(0);
    longer.local_exec_effects = Arc::new(local);
    assert!(longer.check_effects().is_err());
}

#[test]
fn a_last_line_without_an_end_gets_one() {
    assert_eq!(state(effects(1, "a\nb")).diff_effects(), "   a\n---b\n+++b\n");
    assert_eq!(state(effects(1, "")).diff_effects(), "---a\n---b\n");
    assert_eq!(state(effects(1, "a\nb\n")).diff_effects(), "   a\n   b\n");
}

/// The lines of a rendered difference that stand in one of the two texts.
fn unmarked(shown: &str, mark: &str) -> String {
    let mut out = String::new();
    let mut rest = shown;
    while !rest.is_empty() {
        let end = match rest.find(|c| c == '\n' || c == '\r') {
            Some(i) if rest[i..].starts_with("\r\n") => i + 2,
            Some(i) => i + 1,
            None => panic!("a line without an end"),
        };
        let line = &rest[..end];
        let sign = &line[..3];
        assert!(sign == "---" || sign == "+++" || sign == "   ", "{:?}", line);
        if sign == mark || sign == "   " {
            out.push_str(&line[3..]);
        }
        rest = &rest[end..];
    }
    out
}

fn ended(text: &str) -> String {
    if text.is_empty() || text.ends_with('\n') || text.ends_with('\r') {
        text.to_string()
    } else {
        format!("{}\n", text)
    }
}

fn shows_both(on_chain: &str, local: &str) {
    let mut state = state(effects(1, local));
    state.transaction_info = Arc::new(OnChainTransactionInfo {
        tx_digest: tx(50),
        raw_transaction: Arc::new(vec![]),
        sender: SuiAddress { hi: 0, lo: 8 },
        input_objects: vec![],
        kind: Arc::new(TransactionKind::Other { encoded: vec![] }),
        modified_at_versions: vec![],
        shared_object_refs: vec![],
        gas: vec![],
        gas_budget: 0,
        gas_price: 0,
        executed_epoch: 0,
        dependencies: vec![],
        effects: effects(0, on_chain),
        protocol_version: 1,
        epoch_start_timestamp: 0,
        reference_gas_price: 0,
    });
    let shown = state.diff_effects();
    assert_eq!(unmarked(&shown, "---"), ended(on_chain), "{:?} {:?}", on_chain, local);
    assert_eq!(unmarked(&shown, "+++"), ended(local), "{:?} {:?}", on_chain, local);
}

#[test]
fn a_difference_gives_back_both_texts() {
    for text in ["", "a", "a\n", "a\r", "a\r\nb", "\n\n", "\r\r\n\n", "--- a\n+++ b\n"] {
        for other in ["", "a", "a\n", "b\r\n", "a\r\nb\r\n", "\n", "\r", "   a\n"] {
            shows_both(text, other);
            shows_both(other, text);
        }
        shows_both(text, text);
    }
}

#[test]
fn a_difference_of_many_repeated_lines_gives_back_both_texts() {
    let mut seed: u64 = 7;
    let mut next = |bound: u64| {
        seed = seed.wrapping_mul(6364136223846793005).wrapping_add(1442695040888963407);
        (seed >> 33) % bound
    };
    let ends = ["\n", "\n", "\n", "\r\n", "\r", ""];
    for round in 0..400 {
        let mut text = |longest: u64| {
            let mut out = String::new();
            for _ in 0..next(longest) {
                out.push_str(["a", "b", "c", ""][next(4) as usize]);
                out.push_str(ends[next(ends.len() as u64) as usize]);
            }
            out
        };
        let longest = if round % 10 == 0 { 250 } else { 30 };
        let first = text(longest);
        let second = text(longest);
        shows_both(&first, &second);
    }
}

#[test]
fn equal_texts_have_no_marked_lines() {
    let text = "a\nb\nb\nc";
    let mut same = state(effects(1, "a\nb\n"));
    assert!(same.diff_effects().split_inclusive('\n').all(|line| line.starts_with("   ")));
    same.local_exec_effects = effects(1, text);
    assert!(same.diff_effects().contains("+++"));
}

#[test]
fn changes_are_rendered_behind_their_signs() {
    let changes = vec![
        (LineChange::Delete, "x\n".to_string()),
        (LineChange::Insert, "y".to_string()),
        (LineChange::Equal, "z\n".to_string()),
    ];
    assert_eq!(render_changes(&changes), "---x\n+++y   z\n");
    assert_eq!(render_changes(&vec![]), "");
}

#[test]
fn a_genesis_transaction_is_not_replayed() {
    for info in [info(1000, 8), info(50, 0)] {
        let mut exec = session();
        let step: EngineStep<u8, String> = exec.execution_engine_execute_with_tx_info_impl(
            &info,
            &None,
            EngineStage::Begin,
            None,
        );
        match step {
            EngineStep::Done(Ok(state)) => {
                assert_eq!(state.transaction_info, info);
                assert!(state.required_objects.is_empty());
                assert_eq!(state.local_exec_temporary_store, None);
                assert_eq!(state.local_exec_effects, info.effects);
                assert_eq!(state.local_exec_status, Ok(()));
                assert_eq!(state.check_effects(), Ok(()));
            }
            step => panic!("{:?}", step),
        }
    }
}

#[test]
fn an_address_is_zero_only_if_both_halves_are() {
    let mut info = OnChainTransactionInfo {
        tx_digest: tx(50),
        raw_transaction: Arc::new(vec![]),
        sender: SuiAddress { hi: 1, lo: 0 },
        input_objects: vec![],
        kind: Arc::new(TransactionKind::Other { encoded: vec![] }),
        modified_at_versions: vec![],
        shared_object_refs: vec![],
        gas: vec![],
        gas_budget: 0,
        gas_price: 0,
        executed_epoch: 0,
        dependencies: vec![],
        effects: effects(0, ""),
        protocol_version: 1,
        epoch_start_timestamp: 0,
        reference_gas_price: 0,
    };
    info.protocol_version = 3;
    let mut exec = session();
    let step: EngineStep<u8, String> = exec.execution_engine_execute_with_tx_info_impl(
        &Arc::new(info),
        &None,
        EngineStage::Begin,
        None,
    );
    assert!(matches!(step, EngineStep::Ask(Request::VersionedObjects(_), EngineStage::Env(_))));
    assert_eq!(exec.current_protocol_version, 3);
}

#[test]
fn the_engine_is_called_once_everything_is_there() {
    let mut exec = session();
    let info = info(50, 8);
    let children = EnvStage::Children { inputs: vec![] };
    let step: EngineStep<u8, String> = exec.execution_engine_execute_with_tx_info_impl(
        &info,
        &None,
        EngineStage::Env(children),
        Some(EngineReply::Env(EnvReply::Objects(Ok(vec![object(3)])))),
    );
    let stage = match step {
        EngineStep::Ask(Request::EpochChangeEvents { reverse: true }, stage) => stage,
        step => panic!("{:?}", step),
    };
    assert_eq!(stage, EngineStage::EpochStart { inputs: vec![], events: None });
    let step: EngineStep<u8, String> = exec.execution_engine_execute_with_tx_info_impl(
        &info,
        &None,
        stage,
        Some(EngineReply::Events(Ok(vec![event(9)]))),
    );
    let stage = match step {
        EngineStep::Ask(Request::Transaction(asked), stage) => {
            assert_eq!(asked, tx(90));
            stage
        }
        step => panic!("{:?}", step),
    };
    let reply = record(TransactionKind::ChangeEpoch { epoch_start_timestamp_ms: 321, encoded: vec![] });
    let kind = Arc::new(TransactionKind::Other { encoded: vec![99] });
    let step: EngineStep<u8, String> = exec.execution_engine_execute_with_tx_info_impl(
        &info,
        &Some(kind.clone()),
        stage,
        Some(EngineReply::Transaction(Ok(reply))),
    );
    match step {
        EngineStep::Execute(call) => {
            assert_eq!(call.shared_object_refs, info.shared_object_refs);
            assert!(call.inputs.is_empty());
            assert_eq!(call.kind, kind);
            assert_eq!(call.sender, info.sender);
            assert_eq!(call.gas, info.gas);
            assert_eq!((call.gas_budget, call.gas_price), (5, 6));
            assert_eq!(call.tx_digest, tx(50));
            assert_eq!(call.dependencies, vec![tx(77)]);
            assert_eq!(call.executed_epoch, 9);
            assert_eq!(call.epoch_start_timestamp, 321);
            assert_eq!(call.protocol_version, 4);
        }
        step => panic!("{:?}", step),
    }
}

#[test]
fn a_failed_preparation_ends_the_replay() {
    let mut exec = session();
    let step: EngineStep<u8, String> = exec.execution_engine_execute_with_tx_info_impl(
        &info(50, 8),
        &None,
        EngineStage::Env(EnvStage::Inputs(InputStage::Owned)),
        Some(EngineReply::Env(EnvReply::Objects(Err(LocalExecError::SuiRpcRequestTimeout)))),
    );
    assert!(matches!(step, EngineStep::Done(Err(LocalExecError::SuiRpcRequestTimeout))));
}

#[test]
fn a_finished_replay_names_all_objects() {
    let mut exec = session();
    exec.storage.cache_all(&vec![object(3)]);
    let outcome: EngineOutcome<u8, String> = EngineOutcome {
        temporary_store: 42,
        effects: Ok(effects(1, "x")),
        status: Err("out of gas".to_string()),
    };
    let state = exec.finish_execution(&info(50, 8), outcome).unwrap();
    assert_eq!(state.transaction_info, info(50, 8));
    assert_eq!(state.required_objects, vec![object(3), object(3)]);
    assert_eq!(state.local_exec_temporary_store, Some(42));
    assert_eq!(state.local_exec_effects, effects(1, "x"));
    assert_eq!(state.local_exec_status, Err("out of gas".to_string()));
    let outcome: EngineOutcome<u8, String> = EngineOutcome {
        temporary_store: 42,
        effects: Err(LocalExecError::SuiError { err: SuiError::Other("bad".to_string()) }),
        status: Ok(()),
    };
    assert_eq!(
        exec.finish_execution(&info(50, 8), outcome).unwrap_err(),
        LocalExecError::SuiError { err: SuiError::Other("bad".to_string()) }
    );
}

#[test]
fn a_transaction_is_looked_up_and_then_replayed() {
    let mut exec = session();
    exec.protocol_version_epoch_table.insert(
        4,
        ProtocolVersionSummary {
            protocol_version: 4,
            epoch_start: 0,
            epoch_end: 9,
            checkpoint_start: 0,
            checkpoint_end: 9,
            epoch_change_tx: tx(2),
        },
    );
    let step: ReplayStep<u8, String> =
        exec.execution_engine_execute_impl(&tx(50), ReplayStage::Begin, None);
    let stage = match step {
        ReplayStep::Ask(Request::Transaction(asked), stage) => {
            assert_eq!(asked, tx(50));
            stage
        }
        step => panic!("{:?}", step),
    };
    let found = record(TransactionKind::Other { encoded: vec![4] });
    let step: ReplayStep<u8, String> = exec.execution_engine_execute_impl(
        &tx(50),
        stage,
        Some(EngineReply::Transaction(Ok(found))),
    );
    let stage = match step {
        ReplayStep::Ask(Request::EpochChangeEvents { .. }, stage) => stage,
        step => panic!("{:?}", step),
    };
    let step: ReplayStep<u8, String> = exec.execution_engine_execute_impl(
        &tx(50),
        stage,
        Some(EngineReply::Events(Ok(vec![event(9)]))),
    );
    let stage = match step {
        ReplayStep::Ask(Request::Transaction(asked), stage) => {
            assert_eq!(asked, tx(90));
            stage
        }
        step => panic!("{:?}", step),
    };
    let change = record(TransactionKind::ChangeEpoch { epoch_start_timestamp_ms: 321, encoded: vec![] });
    let step: ReplayStep<u8, String> = exec.execution_engine_execute_impl(
        &tx(50),
        stage,
        Some(EngineReply::Transaction(Ok(change))),
    );
    match step {
        ReplayStep::Ask(
            Request::VersionedObjects(objs),
            ReplayStage::Engine { info, stage: EngineStage::Env(EnvStage::Modified) },
        ) => {
            assert!(objs.is_empty());
            assert_eq!(info.tx_digest, tx(50));
            assert_eq!(info.epoch_start_timestamp, 321);
        }
        step => panic!("{:?}", step),
    }
    let step: ReplayStep<u8, String> = exec.execution_engine_execute_impl(
        &tx(50),
        ReplayStage::Resolve { tx: None, events: None },
        Some(EngineReply::Transaction(Err(LocalExecError::SuiRpcRequestTimeout))),
    );
    assert!(matches!(step, ReplayStep::Done(Err(LocalExecError::SuiRpcRequestTimeout))));
}

#[test]
fn only_an_authority_makes_a_certificate() {
    let route = LocalExec::execute_transaction(true, Ok(state(effects(0, ""))));
    assert!(matches!(route, ReplayRoute::Certificate(_)));
    let route = LocalExec::execute_transaction(false, Ok(state(effects(0, ""))));
    assert!(matches!(route, ReplayRoute::Done(Ok(_))));
    for use_authority in [true, false] {
        let failed: Result<State, LocalExecError> = Err(LocalExecError::SuiRpcRequestTimeout);
        let route = LocalExec::execute_transaction(use_authority, failed);
        assert!(matches!(route, ReplayRoute::Done(Err(LocalExecError::SuiRpcRequestTimeout))));
    }
}

#[test]
fn a_certificate_is_made_and_executed_in_order() {
    let exec = session();
    let pre_run = state(effects(0, "a\nb\n"));
    let step = |event: CertificateEvent<String>| {
        exec.certificate_execute_with_sandbox_state(&pre_run, None, event)
    };
    match step(CertificateEvent::Begin) {
        CertificateAction::PrepareNetwork(authority, epoch) => {
            assert_eq!(authority.protocol_version, 4);
            assert_eq!(authority.reference_gas_price, 2);
            assert_eq!(authority.objects, vec![object(3)]);
            assert_eq!(
                epoch,
                EpochPlan {
                    epoch: 9,
                    protocol_version: 4,
                    reference_gas_price: 2,
                    safe_mode: false,
                    epoch_start_timestamp_ms: 1,
                    epoch_duration_ms: 24 * 60 * 60 * 1000,
                    committee_epoch: 9,
                }
            );
        }
        action => panic!("{:?}", action),
    }
    match step(CertificateEvent::NetworkPrepared) {
        CertificateAction::HandleTransaction(raw) => assert_eq!(*raw, vec![7]),
        action => panic!("{:?}", action),
    }
    assert!(matches!(
        step(CertificateEvent::TransactionHandled(Ok(()))),
        CertificateAction::Certify { epoch: 9 }
    ));
    match step(CertificateEvent::TransactionHandled(Err(SuiError::Other("no".to_string())))) {
        CertificateAction::Done(Err(err)) => {
            assert_eq!(err, LocalExecError::SuiError { err: SuiError::Other("no".to_string()) })
        }
        action => panic!("{:?}", action),
    }
    match step(CertificateEvent::Certified(tx(51))) {
        CertificateAction::SetSharedVersions { tx: digest, versions } => {
            assert_eq!(digest, tx(51));
            assert_eq!(versions, vec![((0, 20), 2)]);
        }
        action => panic!("{:?}", action),
    }
    assert!(matches!(
        step(CertificateEvent::SharedVersionsSet),
        CertificateAction::LockEpoch(9)
    ));
    assert!(matches!(
        step(CertificateEvent::EpochLocked),
        CertificateAction::ExecuteCertificate
    ));
}

#[test]
fn an_executed_certificate_keeps_the_state_it_was_given() {
    let exec = session();
    let pre_run = state(effects(0, "a\nb\n"));
    for error in [None, Some("abort".to_string())] {
        let action = exec.certificate_execute_with_sandbox_state(
            &pre_run,
            None,
            CertificateEvent::Executed { effects: Ok(effects(1, "x")), error: error.clone() },
        );
        match action {
            CertificateAction::Done(Ok(state)) => {
                assert_eq!(state.transaction_info, pre_run.transaction_info);
                assert_eq!(state.required_objects, pre_run.required_objects);
                assert_eq!(state.local_exec_temporary_store, None);
                assert_eq!(state.local_exec_effects, effects(1, "x"));
                assert_eq!(state.local_exec_status.err(), error);
            }
            action => panic!("{:?}", action),
        }
    }
    let action = exec.certificate_execute_with_sandbox_state(
        &pre_run,
        None,
        CertificateEvent::Executed {
            effects: Err(LocalExecError::SuiRpcRequestTimeout),
            error: None,
        },
    );
    assert!(matches!(
        action,
        CertificateAction::Done(Err(LocalExecError::SuiRpcRequestTimeout))
    ));
}

#[test]
fn the_transactions_of_checkpoints_are_collected_in_order() {
    let exec = session();
    let ids = vec![10, 11];
    assert_eq!(
        exec.execute_all_in_checkpoints(&ids, false, &vec![]),
        Step::Ask(Request::CheckpointTransactions(10))
    );
    assert_eq!(
        exec.execute_all_in_checkpoints(&ids, false, &vec![Ok(vec![tx(3), tx(1)])]),
        Step::Ask(Request::CheckpointTransactions(11))
    );
    assert_eq!(
        exec.execute_all_in_checkpoints(&ids, true, &vec![Ok(vec![tx(3), tx(1)]), Ok(vec![tx(2)])]),
        Step::Done(Ok(CheckpointRun {
            txs: vec![tx(3), tx(1), tx(2)],
            done: 0,
            succeeded: 0,
            terminate_early: true,
        }))
    );
    assert_eq!(
        exec.execute_all_in_checkpoints(&ids, true, &vec![Err(LocalExecError::SuiRpcRequestTimeout)]),
        Step::Done(Err(LocalExecError::SuiRpcError {
            err: ErrorText::Of(Arc::new(LocalExecError::SuiRpcRequestTimeout)),
        }))
    );
    match exec.execute_all_in_checkpoints(&vec![], false, &vec![]) {
        Step::Done(Ok(run)) => assert_eq!(run.totals(), (0, 0)),
        step => panic!("{:?}", step),
    }
}

fn run(terminate_early: bool) -> CheckpointRun {
    CheckpointRun { txs: vec![tx(3), tx(1), tx(2)], done: 0, succeeded: 0, terminate_early }
}

#[test]
fn failures_are_counted_and_passed_over() {
    let mut run = run(false);
    assert_eq!(run.next_transaction(), Some(tx(3)));
    assert_eq!(run.on_result(&Ok(state(effects(0, "")))), Verdict::Succeeded);
    assert_eq!(run.next_transaction(), Some(tx(1)));
    assert!(matches!(
        run.on_result(&Ok(state(effects(1, "")))),
        Verdict::Failed(LocalExecError::EffectsForked { .. })
    ));
    assert_eq!(run.next_transaction(), Some(tx(2)));
    let failed: Result<State, LocalExecError> = Err(LocalExecError::SuiRpcRequestTimeout);
    assert_eq!(run.on_result(&failed), Verdict::Failed(LocalExecError::SuiRpcRequestTimeout));
    assert_eq!(run.next_transaction(), None);
    assert_eq!(run.totals(), (1, 3));
}

#[test]
fn the_first_failure_may_end_the_run() {
    let mut run = run(true);
    assert_eq!(run.on_result(&Ok(state(effects(0, "")))), Verdict::Succeeded);
    let failed: Result<State, LocalExecError> = Err(LocalExecError::SuiRpcRequestTimeout);
    assert_eq!(run.on_result(&failed), Verdict::Stop(LocalExecError::SuiRpcRequestTimeout));
}
