use std::collections::BTreeMap;
use std::sync::Arc;
use sui_replay::download::ObjectsReply;
use sui_replay::error::LocalExecError;
use sui_replay::event::{EventPage, SuiEvent};
use sui_replay::local_exec::{LocalExec, NetworkParams, PageReply, ProtocolVersionSummary};
use sui_replay::protocol::TransactionReply;
use sui_replay::request::{Request, Step};
use sui_replay::types::{
    Data, EventCursor, GasData, Object, ObjectDigest, ObjectID, Owner, StructTag, SuiAddress,
    TransactionDigest, TransactionEffects, TransactionKind, TransactionRecord,
};

fn tx(n: u128) -> TransactionDigest {
    TransactionDigest { hi: 0, lo: n }
}

fn params() -> NetworkParams {
    NetworkParams {
        genesis_marker_tx: tx(1000),
        testnet_genesis_tx: tx(1),
        safe_mode_tx: tx(2),
        epoch_change_struct_tag: "0x3::sui_system_state_inner::SystemEpochInfoEvent".to_string(),
        builtin_package_ids: vec![(0, 1), (0, 2), (0, 0xdee9), (0, 3)],
        deepbook_package_id: (0, 0xdee9),
        num_retries_for_timeout: 2,
        sleep_period_for_timeout_ms: 10,
    }
}

fn session(first_tx: u128) -> LocalExec {
    LocalExec::new(Ok(vec![tx(99), tx(first_tx)]), params()).unwrap()
}

fn start(n: u128, epoch: u64, version: u64) -> SuiEvent {
    let mut object = serde_json::Map::new();
    object.insert("epoch".to_string(), serde_json::Value::from(epoch.to_string()));
    object.insert("protocol_version".to_string(), serde_json::Value::from(version.to_string()));
    SuiEvent { tx_digest: tx(n), parsed_json: Arc::new(serde_json::Value::Object(object)) }
}

fn shapeless(n: u128) -> SuiEvent {
    SuiEvent { tx_digest: tx(n), parsed_json: Arc::new(serde_json::Value::Null) }
}

fn record(checkpoint: u64) -> TransactionReply {
    Ok(TransactionRecord {
        sender: SuiAddress { hi: 0, lo: 0 },
        raw_transaction: Arc::new(vec![]),
        kind: Arc::new(TransactionKind::ChangeEpoch { epoch_start_timestamp_ms: 0, encoded: vec![] }),
        input_objects: Ok(vec![]),
        gas_data: GasData { payment: vec![], budget: 0, price: 1 },
        effects: Arc::new(TransactionEffects {
            encoded: vec![],
            rendered: String::new(),
            executed_epoch: 0,
            modified_at_versions: vec![],
            shared_objects: vec![],
            dependencies: vec![],
        }),
        checkpoint: Some(checkpoint),
    })
}

fn range(
    protocol_version: u64,
    epochs: (u64, u64),
    checkpoints: (u64, u64),
    epoch_change_tx: u128,
) -> ProtocolVersionSummary {
    ProtocolVersionSummary {
        protocol_version,
        epoch_start: epochs.0,
        epoch_end: epochs.1,
        checkpoint_start: checkpoints.0,
        checkpoint_end: checkpoints.1,
        epoch_change_tx: tx(epoch_change_tx),
    }
}

fn package(id: u128, version: u64, by: u128) -> Object {
    Object {
        id: (0, id),
        version,
        digest: ObjectDigest { hi: 0, lo: 0 },
        previous_transaction: tx(by),
        owner: Owner::Immutable,
        data: Arc::new(Data::Package { modules: vec![] }),
    }
}

#[test]
fn the_test_network_is_known_by_its_first_transaction() {
    assert!(session(1).is_testnet);
    assert!(!session(5).is_testnet);
    assert!(!LocalExec::new(Ok(vec![]), params()).unwrap().is_testnet);
    let err = LocalExec::new(Err(LocalExecError::SuiRpcRequestTimeout), params()).unwrap_err();
    assert_eq!(err, LocalExecError::SuiRpcRequestTimeout);
}

#[test]
fn the_genesis_transaction_is_the_first_of_the_first_checkpoint() {
    assert_eq!(session(5).genesis_tx, tx(99));
    assert_eq!(session(1).genesis_tx, tx(1));
    assert_eq!(LocalExec::new(Ok(vec![]), params()).unwrap().genesis_tx, tx(1000));
}

#[test]
fn a_session_that_begins_anew_knows_nothing() {
    let mut exec = session(1);
    exec.current_protocol_version = 9;
    exec.storage.backfill(&vec![package(1, 1, 1)]);
    exec.protocol_version_epoch_table.insert(1, range(1, (0, 1), (0, 1), 1));
    assert_eq!(
        exec.reset_for_new_execution(&None, &None, &vec![], &vec![]),
        Step::Ask(Request::CheckpointTransactions(0))
    );
    let timeout = LocalExecError::SuiRpcRequestTimeout;
    assert_eq!(
        exec.reset_for_new_execution(&Some(Err(timeout.clone())), &None, &vec![], &vec![]),
        Step::Done(Err(timeout))
    );
    assert_eq!(exec.current_protocol_version, 9);
    assert_eq!(exec.storage.all_objects().len(), 3);
    let first = Some(Ok(vec![tx(5)]));
    assert_eq!(
        exec.reset_for_new_execution(&first, &None, &vec![], &vec![]),
        Step::Ask(Request::EpochChangeEvents { reverse: false })
    );
    assert!(!exec.is_testnet);
    assert_eq!(exec.genesis_tx, tx(5));
    assert_eq!(exec.current_protocol_version, 0);
    assert!(exec.protocol_version_epoch_table.is_empty());
    assert!(exec.protocol_version_system_package_table.is_empty());
    assert!(exec.exec_store_events.is_empty());
    assert!(exec.storage.all_objects().is_empty());
    assert_eq!(exec.params, params());
}

#[test]
fn a_session_that_begins_anew_is_filled() {
    let mut exec = session(1);
    let first = Some(Ok(vec![tx(5)]));
    let events = Some(Ok(vec![]));
    assert_eq!(
        exec.reset_for_new_execution(&first, &events, &vec![], &vec![]),
        Step::Ask(Request::Transaction(tx(5)))
    );
    let txs = vec![record(33)];
    assert_eq!(
        exec.reset_for_new_execution(&first, &events, &txs, &vec![]),
        Step::Ask(Request::LatestObjects(vec![(0, 1), (0, 2), (0, 3)]))
    );
    let packages = vec![Ok(vec![package(1, 1, 5), package(2, 1, 5)]), Ok(vec![])];
    assert_eq!(
        exec.reset_for_new_execution(&first, &events, &txs, &packages),
        Step::Done(Ok(()))
    );
    assert_eq!(exec.protocol_version_epoch_table[&1], range(1, (0, 0), (0, 33), 5));
    assert_eq!(
        exec.system_package_versions_for_epoch(1),
        Ok(vec![((0, 1), 1), ((0, 2), 1)])
    );
}

#[test]
fn the_deepbook_package_came_with_version_five() {
    let exec = session(1);
    assert_eq!(exec.system_package_ids(4), vec![(0, 1), (0, 2), (0, 3)]);
    assert_eq!(exec.system_package_ids(5), vec![(0, 1), (0, 2), (0, 0xdee9), (0, 3)]);
}

#[test]
fn the_version_in_force_is_the_highest_that_started() {
    let mut exec = session(1);
    assert_eq!(
        exec.get_protocol_config(0),
        Err(LocalExecError::ProtocolVersionNotFound { epoch: 0 })
    );
    exec.protocol_version_epoch_table.insert(1, range(1, (2, 9), (0, 9), 1));
    exec.protocol_version_epoch_table.insert(3, range(3, (10, 20), (10, 90), 2));
    assert_eq!(
        exec.get_protocol_config(1),
        Err(LocalExecError::ProtocolVersionNotFound { epoch: 1 })
    );
    assert_eq!(exec.get_protocol_config(2), Ok(1));
    assert_eq!(exec.get_protocol_config(9), Ok(1));
    assert_eq!(exec.get_protocol_config(10), Ok(3));
    assert_eq!(exec.get_protocol_config(1_000), Ok(3));
}

#[test]
fn the_version_of_an_epoch_is_one_before_all_others() {
    let mut table = BTreeMap::new();
    assert_eq!(LocalExec::protocol_version_for_epoch(7, &table), 1);
    table.insert(2, (tx(1), 5, 9));
    table.insert(4, (tx(2), 10, 20));
    assert_eq!(LocalExec::protocol_version_for_epoch(4, &table), 1);
    assert_eq!(LocalExec::protocol_version_for_epoch(5, &table), 2);
    assert_eq!(LocalExec::protocol_version_for_epoch(10, &table), 4);
}

#[test]
fn package_versions_come_in_order_or_not_at_all() {
    let mut exec = session(1);
    assert_eq!(
        exec.system_package_versions_for_epoch(3),
        Err(LocalExecError::FrameworkObjectVersionTableNotPopulated { epoch: 3 })
    );
    let mut table: BTreeMap<ObjectID, u64> = BTreeMap::new();
    table.insert((0, 3), 30);
    table.insert((0, 1), 10);
    exec.protocol_version_system_package_table.insert(3, table);
    assert_eq!(
        exec.system_package_versions_for_epoch(3),
        Ok(vec![((0, 1), 10), ((0, 3), 30)])
    );
}

#[test]
fn events_are_asked_for_by_their_type() {
    let exec = session(1);
    let struct_tag = || StructTag {
        address: (0, 3),
        module: "sui_system_state_inner".to_string(),
        name: "SystemEpochInfoEvent".to_string(),
        type_params: vec![],
    };
    let asked = |cursor: Option<EventCursor>| {
        Step::Ask(Request::EventPage { struct_tag: struct_tag(), cursor, reverse: true })
    };
    let behind = |n: u128| Some(EventCursor { tx_digest: tx(n), event_seq: 4 });
    let page = |ids: &[u128], next: Option<EventCursor>| -> PageReply {
        Ok(EventPage { data: ids.iter().map(|id| shapeless(*id)).collect(), next })
    };
    let mut pages: Vec<PageReply> = vec![];
    assert_eq!(exec.get_epoch_change_events(true, &pages), asked(None));
    pages.push(page(&[1, 2], behind(2)));
    assert_eq!(exec.get_epoch_change_events(true, &pages), asked(behind(2)));
    pages.push(page(&[], behind(7)));
    assert_eq!(exec.get_epoch_change_events(true, &pages), asked(behind(7)));
    pages.push(page(&[3], None));
    assert_eq!(
        exec.get_epoch_change_events(true, &pages),
        Step::Done(Ok(vec![shapeless(1), shapeless(2), shapeless(3)]))
    );
    assert_eq!(
        exec.get_epoch_change_events(true, &vec![page(&[], None)]),
        Step::Done(Ok(vec![]))
    );
}

#[test]
fn a_page_of_events_that_cannot_be_had_is_an_error() {
    let exec = session(1);
    let first =
        Ok(EventPage { data: vec![], next: Some(EventCursor { tx_digest: tx(1), event_seq: 0 }) });
    assert_eq!(
        exec.get_epoch_change_events(true, &vec![first, Err("down".to_string())]),
        Step::Done(Err(LocalExecError::UnableToQuerySystemEvents { rpc_err: "down".to_string() }))
    );
}

#[test]
fn a_bad_event_type_is_an_error() {
    let mut exec = session(1);
    exec.params.epoch_change_struct_tag = "u64".to_string();
    assert_eq!(
        exec.get_epoch_change_events(false, &vec![]),
        Step::Done(Err(LocalExecError::InvalidStructTag { err: "U64".to_string() }))
    );
}

#[test]
fn the_history_of_the_test_network() {
    let exec = session(1);
    assert!(matches!(
        exec.protocol_ver_to_epoch_map(&None, &vec![]),
        Step::Ask(Request::EpochChangeEvents { reverse: false })
    ));
    let all = vec![
        start(11, 1, 1),
        start(12, 742, 2),
        start(13, 743, 2),
        start(14, 750, 3),
        start(15, 751, 3),
        start(16, 760, 5),
        start(17, 761, 5),
    ];
    let events = Some(Ok(all.iter().map(|e| e.clone()).collect::<Vec<_>>()));
    let mut replies: Vec<TransactionReply> = vec![];
    for (asked, checkpoint) in [(2, 1000), (14, 2000), (16, 3000), (17, 3500)] {
        assert!(exec.do_replies_fit(&all, &replies));
        assert_eq!(
            exec.protocol_ver_to_epoch_map(&events, &replies),
            Step::Ask(Request::Transaction(tx(asked)))
        );
        replies.push(record(checkpoint));
    }
    let mut ranges = BTreeMap::new();
    ranges.insert(1, range(1, (0, 741), (0, 999), 1));
    ranges.insert(2, range(2, (742, 749), (1000, 1999), 2));
    ranges.insert(3, range(3, (750, 759), (2000, 2999), 14));
    ranges.insert(5, range(5, (760, 761), (3000, 3500), 16));
    assert_eq!(exec.protocol_ver_to_epoch_map(&events, &replies), Step::Done(Ok(ranges)));
}

#[test]
fn the_history_of_another_network() {
    let exec = session(5);
    let events = Some(Ok(vec![start(11, 1, 1), start(12, 7, 4), start(13, 8, 4)]));
    assert_eq!(
        exec.protocol_ver_to_epoch_map(&events, &vec![]),
        Step::Ask(Request::Transaction(tx(12)))
    );
    assert_eq!(
        exec.protocol_ver_to_epoch_map(&events, &vec![record(70)]),
        Step::Ask(Request::Transaction(tx(13)))
    );
    let mut ranges = BTreeMap::new();
    ranges.insert(1, range(1, (0, 6), (0, 69), 99));
    ranges.insert(4, range(4, (7, 8), (70, 80), 12));
    assert_eq!(
        exec.protocol_ver_to_epoch_map(&events, &vec![record(70), record(80)]),
        Step::Done(Ok(ranges))
    );
}

#[test]
fn a_history_without_events_has_one_range() {
    let exec = session(5);
    let events = Some(Ok(vec![]));
    assert_eq!(
        exec.protocol_ver_to_epoch_map(&events, &vec![]),
        Step::Ask(Request::Transaction(tx(99)))
    );
    let mut ranges = BTreeMap::new();
    ranges.insert(1, range(1, (0, 0), (0, 33), 99));
    assert_eq!(
        exec.protocol_ver_to_epoch_map(&events, &vec![record(33)]),
        Step::Done(Ok(ranges))
    );
}

#[test]
fn a_history_stops_at_the_first_failure() {
    let exec = session(5);
    let events = Some(Ok(vec![start(11, 1, 2), shapeless(12), start(13, 8, 4)]));
    assert_eq!(
        exec.protocol_ver_to_epoch_map(&events, &vec![record(10)]),
        Step::Done(Err(LocalExecError::UnexpectedEventFormat { event: shapeless(12) }))
    );
    assert_eq!(
        exec.protocol_ver_to_epoch_map(&events, &vec![Err(LocalExecError::SuiRpcRequestTimeout)]),
        Step::Done(Err(LocalExecError::SuiRpcRequestTimeout))
    );
    assert_eq!(
        exec.protocol_ver_to_epoch_map(
            &Some(Err(LocalExecError::InvalidStructTag { err: "U64".to_string() })),
            &vec![]
        ),
        Step::Done(Err(LocalExecError::InvalidStructTag { err: "U64".to_string() }))
    );
}

#[test]
fn replies_without_a_checkpoint_do_not_fit() {
    let exec = session(5);
    let mut reply = record(10).unwrap();
    reply.checkpoint = None;
    assert!(!exec.do_replies_fit(&vec![start(11, 1, 2)], &vec![Ok(reply)]));
    assert!(!exec.do_replies_fit(&vec![start(11, 1, 2)], &vec![record(0)]));
    assert!(exec.do_replies_fit(&vec![start(11, 1, 2)], &vec![record(1), record(0)]));
}

#[test]
fn package_revisions_are_followed_back_to_version_one() {
    let mut exec = session(5);
    exec.protocol_version_epoch_table.insert(1, range(1, (0, 6), (0, 69), 2));
    exec.protocol_version_epoch_table.insert(4, range(4, (7, 8), (70, 80), 12));
    let mut replies: Vec<ObjectsReply> = vec![];
    assert_eq!(
        exec.system_package_versions(&replies),
        Step::Ask(Request::LatestObjects(vec![(0, 1), (0, 2), (0, 3)]))
    );
    replies.push(Ok(vec![package(1, 2, 12), package(2, 1, 2), package(3, 3, 12)]));
    assert_eq!(
        exec.system_package_versions(&replies),
        Step::Ask(Request::VersionedObjects(vec![((0, 1), 1), ((0, 3), 2)]))
    );
    replies.push(Ok(vec![package(1, 1, 2), package(3, 2, 11)]));
    assert_eq!(
        exec.system_package_versions(&replies),
        Step::Ask(Request::VersionedObjects(vec![((0, 3), 1)]))
    );
    replies.push(Ok(vec![package(3, 1, 2)]));
    assert_eq!(
        exec.system_package_versions(&replies),
        Step::Ask(Request::VersionedObjects(vec![]))
    );
    replies.push(Ok(vec![]));
    let mut revisions = BTreeMap::new();
    revisions.insert((0, 1), vec![(2, tx(12)), (1, tx(2))]);
    revisions.insert((0, 2), vec![(1, tx(2))]);
    revisions.insert((0, 3), vec![(3, tx(12)), (2, tx(11)), (1, tx(2))]);
    assert_eq!(exec.system_package_versions(&replies), Step::Done(Ok(revisions)));
}

#[test]
fn pruned_packages_end_the_search_for_revisions() {
    let mut exec = session(5);
    exec.protocol_version_epoch_table.insert(1, range(1, (0, 6), (0, 69), 2));
    let pruned = vec![
        LocalExecError::ObjectNotExist { id: (0, 1) },
        LocalExecError::ObjectVersionNotFound { id: (0, 1), version: 4 },
        LocalExecError::ObjectVersionTooHigh { id: (0, 1), asked_version: 5, latest_version: 4 },
        LocalExecError::ObjectDeleted {
            id: (0, 1),
            version: 4,
            digest: ObjectDigest { hi: 0, lo: 0 },
        },
    ];
    for err in pruned {
        // Nothing can be pruned of the latest versions.
        assert_eq!(
            exec.system_package_versions(&vec![Err(err.clone())]),
            Step::Done(Err(err.clone()))
        );
        let replies = vec![Ok(vec![package(1, 5, 12)]), Err(err)];
        let mut revisions = BTreeMap::new();
        revisions.insert((0, 1), vec![(5, tx(12))]);
        assert_eq!(exec.system_package_versions(&replies), Step::Done(Ok(revisions)));
    }
    let replies =
        vec![Ok(vec![package(1, 5, 12)]), Err(LocalExecError::SuiRpcRequestTimeout)];
    assert_eq!(
        exec.system_package_versions(&replies),
        Step::Done(Err(LocalExecError::SuiRpcRequestTimeout))
    );
}

#[test]
fn each_table_of_package_versions_builds_on_the_one_before() {
    let mut exec = session(5);
    let mut ranges = BTreeMap::new();
    ranges.insert(1, range(1, (0, 6), (0, 69), 2));
    ranges.insert(2, range(2, (7, 8), (70, 80), 12));
    ranges.insert(4, range(4, (9, 9), (81, 90), 14));
    exec.protocol_version_epoch_table = ranges;
    let mut revisions = BTreeMap::new();
    // The oldest revision with the transaction counts.
    revisions.insert((0, 1), vec![(3, tx(12)), (2, tx(12)), (1, tx(2))]);
    revisions.insert((0, 2), vec![(5, tx(14)), (1, tx(2))]);
    assert_eq!(exec.populate_protocol_version_tables(Ok(revisions)), Ok(()));
    let tables = &exec.protocol_version_system_package_table;
    let one: BTreeMap<ObjectID, u64> = BTreeMap::from([((0, 1), 1), ((0, 2), 1)]);
    let two: BTreeMap<ObjectID, u64> = BTreeMap::from([((0, 1), 2), ((0, 2), 1)]);
    let four: BTreeMap<ObjectID, u64> = BTreeMap::from([((0, 2), 5)]);
    assert_eq!(tables.len(), 3);
    assert_eq!(tables[&1], one);
    assert_eq!(tables[&2], two);
    // Nothing carries over where the version before has no table.
    assert_eq!(tables[&4], four);
}

#[test]
fn failures_leave_the_tables_alone() {
    let mut exec = session(5);
    exec.protocol_version_epoch_table.insert(1, range(1, (0, 6), (0, 69), 2));
    let timeout = LocalExecError::SuiRpcRequestTimeout;
    assert_eq!(exec.populate_protocol_version_tables(Err(timeout.clone())), Err(timeout));
    assert!(exec.protocol_version_system_package_table.is_empty());
}

#[test]
fn a_session_is_filled_from_the_answers_of_the_node() {
    let mut exec = session(5);
    let events = Some(Ok(vec![start(11, 1, 1), start(12, 7, 2)]));
    assert!(matches!(
        exec.init_for_execution(&None, &vec![], &vec![]),
        Step::Ask(Request::EpochChangeEvents { reverse: false })
    ));
    assert_eq!(
        exec.init_for_execution(&events, &vec![], &vec![]),
        Step::Ask(Request::Transaction(tx(12)))
    );
    assert!(exec.protocol_version_epoch_table.is_empty());
    let txs = vec![record(70), record(80)];
    assert_eq!(
        exec.init_for_execution(&events, &txs, &vec![]),
        Step::Ask(Request::LatestObjects(vec![(0, 1), (0, 2), (0, 3)]))
    );
    assert_eq!(exec.protocol_version_epoch_table.len(), 2);
    assert!(exec.protocol_version_system_package_table.is_empty());
    let first: ObjectsReply = Ok(vec![package(1, 2, 12), package(2, 1, 99)]);
    let packages = vec![first, Ok(vec![package(1, 1, 99)]), Ok(vec![])];
    assert_eq!(exec.init_for_execution(&events, &txs, &packages), Step::Done(Ok(())));
    // Every protocol version that is in force at some epoch has a table.
    for epoch in [0, 6, 7, 100] {
        let version = exec.get_protocol_config(epoch).unwrap();
        assert!(exec.system_package_versions_for_epoch(version).is_ok());
    }
    // The packages of version 1 came with the transaction with which the network began.
    assert_eq!(
        exec.system_package_versions_for_epoch(1),
        Ok(vec![((0, 1), 1), ((0, 2), 1)])
    );
    assert_eq!(
        exec.system_package_versions_for_epoch(2),
        Ok(vec![((0, 1), 2), ((0, 2), 1)])
    );
}

#[test]
fn a_session_that_cannot_be_filled_says_why() {
    let mut exec = session(5);
    let timeout = || LocalExecError::SuiRpcRequestTimeout;
    let events = Some(Ok(vec![]));
    assert_eq!(
        exec.init_for_execution(&events, &vec![Err(timeout())], &vec![]),
        Step::Done(Err(timeout()))
    );
    assert!(exec.protocol_version_epoch_table.is_empty());
    assert_eq!(
        exec.init_for_execution(&events, &vec![record(3)], &vec![Err(timeout())]),
        Step::Done(Err(timeout()))
    );
    // Where the protocol versions were in force is known by now.
    assert_eq!(exec.protocol_version_epoch_table.len(), 1);
    assert!(exec.protocol_version_system_package_table.is_empty());
}
