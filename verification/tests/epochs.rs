use std::sync::Arc;
use sui_replay::error::LocalExecError;
use sui_replay::event::{EventsReply, SuiEvent};
use sui_replay::local_exec::{LocalExec, NetworkParams, ProtocolVersionSummary};
use sui_replay::protocol::TransactionReply;
use sui_replay::request::{Request, Step};
use sui_replay::types::{
    GasData, InputObjectKind, ObjectDigest, SuiAddress, TransactionDigest, TransactionEffects,
    TransactionKind, TransactionRecord,
};

fn tx(n: u128) -> TransactionDigest {
    TransactionDigest { hi: 0, lo: n }
}

fn session(first_tx: u128) -> LocalExec {
    let params = NetworkParams {
        genesis_marker_tx: tx(1000),
        testnet_genesis_tx: tx(1),
        safe_mode_tx: tx(2),
        epoch_change_struct_tag: "0x3::sui_system_state_inner::SystemEpochInfoEvent".to_string(),
        builtin_package_ids: vec![],
        deepbook_package_id: (0, 0xdee9),
        num_retries_for_timeout: 2,
        sleep_period_for_timeout_ms: 10,
    };
    LocalExec::new(Ok(vec![tx(first_tx)]), params).unwrap()
}

fn start(n: u128, epoch: u64) -> SuiEvent {
    let mut object = serde_json::Map::new();
    object.insert("epoch".to_string(), serde_json::Value::from(epoch.to_string()));
    object.insert("protocol_version".to_string(), serde_json::Value::from(1));
    object.insert("reference_gas_price".to_string(), serde_json::Value::from("1000"));
    SuiEvent { tx_digest: tx(n), parsed_json: Arc::new(serde_json::Value::Object(object)) }
}

fn record(checkpoint: u64, kind: TransactionKind) -> TransactionReply {
    Ok(TransactionRecord {
        sender: SuiAddress { hi: 0, lo: 8 },
        raw_transaction: Arc::new(vec![7]),
        kind: Arc::new(kind),
        input_objects: Ok(vec![InputObjectKind::MovePackage((0, 2))]),
        gas_data: GasData {
            payment: vec![((0, 60), 6, ObjectDigest { hi: 0, lo: 0 })],
            budget: 500,
            price: 3,
        },
        effects: Arc::new(TransactionEffects {
            encoded: vec![1],
            rendered: "ok".to_string(),
            executed_epoch: 5,
            modified_at_versions: vec![((0, 60), 6)],
            shared_objects: vec![((0, 70), 7, ObjectDigest { hi: 0, lo: 0 })],
            dependencies: vec![tx(77)],
        }),
        checkpoint: Some(checkpoint),
    })
}

fn change(checkpoint: u64) -> TransactionReply {
    record(checkpoint, TransactionKind::ChangeEpoch { epoch_start_timestamp_ms: 123, encoded: vec![] })
}

fn other(checkpoint: u64) -> TransactionReply {
    record(checkpoint, TransactionKind::Other { encoded: vec![4] })
}

/// Events as they are asked for, with the newest first.
fn events() -> Option<EventsReply> {
    Some(Ok(vec![start(22, 7), start(21, 6), start(20, 5)]))
}

#[test]
fn the_next_event_in_the_list_gives_the_second_checkpoint() {
    let exec = session(9);
    assert!(matches!(
        exec.checkpoints_for_epoch(6, &None, &None, &None),
        Step::Ask(Request::EpochChangeEvents { reverse: true })
    ));
    assert_eq!(
        exec.checkpoints_for_epoch(6, &events(), &None, &None),
        Step::Ask(Request::Transaction(tx(21)))
    );
    assert_eq!(
        exec.checkpoints_for_epoch(6, &events(), &Some(change(150)), &None),
        Step::Ask(Request::Transaction(tx(20)))
    );
    assert_eq!(
        exec.checkpoints_for_epoch(6, &events(), &Some(change(150)), &Some(change(100))),
        Step::Done(Ok((150, 99)))
    );
}

#[test]
fn epochs_that_are_neighbours_in_the_list_meet() {
    let exec = session(9);
    let newer = exec.checkpoints_for_epoch(7, &events(), &Some(change(170)), &Some(change(150)));
    let older = exec.checkpoints_for_epoch(6, &events(), &Some(change(150)), &Some(change(100)));
    match (newer, older) {
        (Step::Done(Ok(newer)), Step::Done(Ok(older))) => assert_eq!(newer.1 + 1, older.0),
        _ => panic!("no ranges"),
    }
}

#[test]
fn epoch_zero_begins_with_checkpoint_zero() {
    let exec = session(9);
    assert_eq!(
        exec.checkpoints_for_epoch(0, &events(), &None, &None),
        Step::Ask(Request::Transaction(tx(20)))
    );
    assert_eq!(
        exec.checkpoints_for_epoch(0, &events(), &None, &Some(change(10))),
        Step::Done(Ok((0, 9)))
    );
    assert_eq!(
        exec.checkpoints_for_epoch(0, &Some(Ok(vec![start(20, 5), start(21, 6)])), &None, &None),
        Step::Done(Err(LocalExecError::UnableToDetermineCheckpoint { epoch: 0 }))
    );
}

#[test]
fn the_checkpoints_of_an_epoch_may_not_be_known() {
    let exec = session(9);
    assert_eq!(
        exec.checkpoints_for_epoch(8, &events(), &None, &None),
        Step::Done(Err(LocalExecError::EventNotFound { epoch: 8 }))
    );
    assert_eq!(
        exec.checkpoints_for_epoch(5, &events(), &Some(change(1)), &None),
        Step::Done(Err(LocalExecError::UnableToDetermineCheckpoint { epoch: 5 }))
    );
    let timeout = || Some(Err(LocalExecError::SuiRpcRequestTimeout));
    assert_eq!(
        exec.checkpoints_for_epoch(5, &events(), &timeout(), &None),
        Step::Done(Err(LocalExecError::SuiRpcRequestTimeout))
    );
    assert_eq!(
        exec.checkpoints_for_epoch(6, &events(), &Some(change(1)), &timeout()),
        Step::Done(Err(LocalExecError::SuiRpcRequestTimeout))
    );
    assert_eq!(
        exec.checkpoints_for_epoch(5, &Some(Err(LocalExecError::SuiRpcRequestTimeout)), &None, &None),
        Step::Done(Err(LocalExecError::SuiRpcRequestTimeout))
    );
}

#[test]
fn the_start_of_an_epoch_is_in_the_transaction_that_began_it() {
    let exec = session(9);
    assert!(matches!(
        exec.get_epoch_start_timestamp_and_rgp(6, &None, &None),
        Step::Ask(Request::EpochChangeEvents { reverse: true })
    ));
    assert_eq!(
        exec.get_epoch_start_timestamp_and_rgp(6, &events(), &None),
        Step::Ask(Request::Transaction(tx(21)))
    );
    assert_eq!(
        exec.get_epoch_start_timestamp_and_rgp(6, &events(), &Some(change(1))),
        Step::Done(Ok((123, 1000)))
    );
    assert_eq!(
        exec.get_epoch_start_timestamp_and_rgp(6, &events(), &Some(other(1))),
        Step::Done(Err(LocalExecError::InvalidEpochChangeTx { epoch: 6 }))
    );
    assert_eq!(
        exec.get_epoch_start_timestamp_and_rgp(9, &events(), &None),
        Step::Done(Err(LocalExecError::EventNotFound { epoch: 9 }))
    );
    assert_eq!(
        exec.get_epoch_start_timestamp_and_rgp(
            6,
            &events(),
            &Some(Err(LocalExecError::SuiRpcRequestTimeout))
        ),
        Step::Done(Err(LocalExecError::SuiRpcRequestTimeout))
    );
}

#[test]
fn two_searches_with_the_same_answers_find_the_same() {
    let exec = session(9);
    for epoch in [5, 6, 7, 8] {
        assert_eq!(
            exec.get_epoch_start_timestamp_and_rgp(epoch, &events(), &Some(change(1))),
            exec.get_epoch_start_timestamp_and_rgp(epoch, &events(), &Some(change(2)))
        );
    }
}

#[test]
fn nothing_is_known_of_some_epochs_of_the_test_network() {
    let testnet = session(1);
    for epoch in [3, 741] {
        assert_eq!(
            testnet.get_epoch_start_timestamp_and_rgp(epoch, &None, &None),
            Step::Done(Ok((0, 1)))
        );
    }
    for epoch in [2, 742] {
        assert!(matches!(
            testnet.get_epoch_start_timestamp_and_rgp(epoch, &None, &None),
            Step::Ask(_)
        ));
    }
    assert!(matches!(
        session(9).get_epoch_start_timestamp_and_rgp(3, &None, &None),
        Step::Ask(_)
    ));
}

#[test]
fn a_gas_price_must_be_readable() {
    let exec = session(9);
    let mut object = serde_json::Map::new();
    object.insert("epoch".to_string(), serde_json::Value::from(6));
    object.insert("protocol_version".to_string(), serde_json::Value::from(1));
    let bare = SuiEvent { tx_digest: tx(1), parsed_json: Arc::new(serde_json::Value::Object(object)) };
    let replies: Option<EventsReply> = Some(Ok(vec![start(20, 5), bare]));
    assert!(!exec.is_gas_price_readable(6, &replies));
    assert!(exec.is_gas_price_readable(5, &replies));
    assert!(exec.is_gas_price_readable(7, &replies));
    assert!(exec.is_gas_price_readable(6, &events()));
    assert!(exec.is_gas_price_readable(6, &None));
    assert!(session(1).is_gas_price_readable(6, &replies));
}

#[test]
fn a_transaction_is_put_together_from_three_answers() {
    let mut exec = session(9);
    let summary = ProtocolVersionSummary {
        protocol_version: 3,
        epoch_start: 0,
        epoch_end: 9,
        checkpoint_start: 0,
        checkpoint_end: 9,
        epoch_change_tx: tx(2),
    };
    assert_eq!(
        exec.resolve_tx_components(&tx(50), &None, &None, &None),
        Step::Ask(Request::Transaction(tx(50)))
    );
    assert!(matches!(
        exec.resolve_tx_components(&tx(50), &Some(other(1)), &None, &None),
        Step::Ask(Request::EpochChangeEvents { reverse: true })
    ));
    assert_eq!(
        exec.resolve_tx_components(&tx(50), &Some(other(1)), &events(), &None),
        Step::Ask(Request::Transaction(tx(20)))
    );
    assert_eq!(
        exec.resolve_tx_components(&tx(50), &Some(other(1)), &events(), &Some(change(1))),
        Step::Done(Err(LocalExecError::ProtocolVersionNotFound { epoch: 5 }))
    );
    exec.protocol_version_epoch_table.insert(3, summary);
    match exec.resolve_tx_components(&tx(50), &Some(other(1)), &events(), &Some(change(1))) {
        Step::Done(Ok(info)) => {
            let record = other(1).unwrap();
            assert_eq!(info.tx_digest, tx(50));
            assert_eq!(info.raw_transaction, record.raw_transaction);
            assert_eq!(info.sender, record.sender);
            assert_eq!(Ok(info.input_objects), record.input_objects);
            assert_eq!(info.kind, record.kind);
            assert_eq!(info.modified_at_versions, vec![((0, 60), 6)]);
            assert_eq!(info.shared_object_refs, record.effects.shared_objects);
            assert_eq!(info.gas, record.gas_data.payment);
            assert_eq!((info.gas_budget, info.gas_price), (500, 3));
            assert_eq!(info.executed_epoch, 5);
            assert_eq!(info.dependencies, vec![tx(77)]);
            assert_eq!(info.effects, record.effects);
            assert_eq!(info.protocol_version, 3);
            assert_eq!((info.epoch_start_timestamp, info.reference_gas_price), (123, 1000));
        }
        step => panic!("{:?}", step),
    }
}

#[test]
fn a_transaction_may_not_be_put_together() {
    let exec = session(9);
    assert_eq!(
        exec.resolve_tx_components(
            &tx(50),
            &Some(Err(LocalExecError::SuiRpcRequestTimeout)),
            &None,
            &None
        ),
        Step::Done(Err(LocalExecError::SuiRpcRequestTimeout))
    );
    let mut bad = other(1).unwrap();
    bad.input_objects = Err("twice the same input".to_string());
    assert_eq!(
        exec.resolve_tx_components(&tx(50), &Some(Ok(bad)), &None, &None),
        Step::Done(Err(LocalExecError::UserInputError { err: "twice the same input".to_string() }))
    );
    assert_eq!(
        exec.resolve_tx_components(
            &tx(50),
            &Some(other(1)),
            &Some(Err(LocalExecError::SuiRpcRequestTimeout)),
            &None
        ),
        Step::Done(Err(LocalExecError::SuiRpcRequestTimeout))
    );
}
