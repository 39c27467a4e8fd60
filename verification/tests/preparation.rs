use std::collections::BTreeMap;
use std::sync::Arc;
use sui_replay::error::LocalExecError;
use sui_replay::inputs::{object_keys, InputStage, Progress};
use sui_replay::local_exec::{LocalExec, NetworkParams};
use sui_replay::request::Request;
use sui_replay::setup::{EnvReply, EnvStage};
use sui_replay::types::{
    Data, InputObjectKind, Object, ObjectDigest, ObjectRef, OnChainTransactionInfo, Owner,
    StructTag, SuiAddress, TransactionDigest, TransactionEffects, TransactionKind,
};

fn tx(n: u128) -> TransactionDigest {
    TransactionDigest { hi: 0, lo: n }
}

fn session() -> LocalExec {
    let params = NetworkParams {
        genesis_marker_tx: tx(1000),
        testnet_genesis_tx: tx(1),
        safe_mode_tx: tx(2),
        epoch_change_struct_tag: "0x3::a::B".to_string(),
        builtin_package_ids: vec![(0, 1), (0, 2)],
        deepbook_package_id: (0, 0xdee9),
        num_retries_for_timeout: 2,
        sleep_period_for_timeout_ms: 10,
    };
    LocalExec::new(Ok(vec![]), params).unwrap()
}

fn object(id: u128, version: u64) -> Object {
    Object {
        id: (0, id),
        version,
        digest: ObjectDigest { hi: 0, lo: 0 },
        previous_transaction: tx(50),
        owner: Owner::Shared { initial_shared_version: 1 },
        data: Arc::new(Data::Move {
            type_: Arc::new(StructTag {
                address: (0, 2),
                module: "coin".to_string(),
                name: "Coin".to_string(),
                type_params: vec![],
            }),
            contents: Arc::new(vec![]),
        }),
    }
}

fn package(id: u128, version: u64) -> Object {
    let mut obj = object(id, version);
    obj.data = Arc::new(Data::Package { modules: vec![] });
    obj
}

fn reference(id: u128, version: u64) -> ObjectRef {
    ((0, id), version, ObjectDigest { hi: 0, lo: 0 })
}

fn owned(id: u128, version: u64) -> InputObjectKind {
    InputObjectKind::ImmOrOwnedMoveObject(reference(id, version))
}

fn shared(id: u128) -> InputObjectKind {
    InputObjectKind::SharedMoveObject { id: (0, id), initial_shared_version: 1, mutable: true }
}

fn info(input_objects: Vec<InputObjectKind>) -> OnChainTransactionInfo {
    OnChainTransactionInfo {
        tx_digest: tx(50),
        raw_transaction: Arc::new(vec![7]),
        sender: SuiAddress { hi: 0, lo: 8 },
        input_objects,
        kind: Arc::new(TransactionKind::Other { encoded: vec![] }),
        modified_at_versions: vec![((0, 10), 1)],
        shared_object_refs: vec![reference(20, 2)],
        gas: vec![reference(30, 3)],
        gas_budget: 5,
        gas_price: 6,
        executed_epoch: 9,
        dependencies: vec![],
        effects: Arc::new(TransactionEffects {
            encoded: vec![],
            rendered: String::new(),
            executed_epoch: 9,
            modified_at_versions: vec![],
            shared_objects: vec![],
            dependencies: vec![],
        }),
        protocol_version: 4,
        epoch_start_timestamp: 1,
        reference_gas_price: 2,
    }
}

fn populate(exec: &mut LocalExec) {
    let mut table = BTreeMap::new();
    table.insert((0, 2), 12);
    table.insert((0, 1), 11);
    exec.protocol_version_system_package_table.insert(4, table);
}

#[test]
fn keys_are_identifiers_and_versions() {
    assert_eq!(
        object_keys(&vec![reference(4, 2), reference(3, 1)]),
        vec![((0, 4), 2), ((0, 3), 1)]
    );
}

#[test]
fn a_shared_input_must_be_live() {
    let mut exec = session();
    exec.storage.backfill(&vec![object(20, 2)]);
    let info = info(vec![shared(20), owned(40, 4), shared(22), shared(21)]);
    assert_eq!(
        exec.resolve_download_input_objects(&info, InputStage::Begin, None),
        Progress::Done(Err(LocalExecError::InternalCacheInvariantViolation {
            id: (0, 22),
            version: None,
        }))
    );
}

#[test]
fn inputs_are_resolved_in_their_order() {
    let mut exec = session();
    populate(&mut exec);
    exec.current_protocol_version = 4;
    exec.storage.backfill(&vec![object(20, 2)]);
    let kinds = vec![
        InputObjectKind::MovePackage((0, 2)),
        owned(40, 4),
        InputObjectKind::MovePackage((0, 77)),
        shared(20),
        InputObjectKind::MovePackage((0, 88)),
    ];
    let info = info(kinds.clone());
    assert!(!exec.are_inputs_at_hand(&kinds));
    assert_eq!(
        exec.resolve_download_input_objects(&info, InputStage::Begin, None),
        Progress::Ask(Request::VersionedObjects(vec![((0, 40), 4)]), InputStage::Owned)
    );
    assert_eq!(
        exec.resolve_download_input_objects(
            &info,
            InputStage::Owned,
            Some(Ok(vec![object(40, 4)]))
        ),
        Progress::Ask(
            Request::VersionedObjects(vec![((0, 1), 11), ((0, 2), 12)]),
            InputStage::SystemPackages
        )
    );
    assert!(exec.are_inputs_at_hand(&kinds));
    let system = || vec![package(1, 11), package(2, 12)];
    assert_eq!(
        exec.resolve_download_input_objects(&info, InputStage::SystemPackages, Some(Ok(system()))),
        Progress::Ask(
            Request::LatestObjects(vec![(0, 77), (0, 88)]),
            InputStage::LatestPackages { system: system() }
        )
    );
    // The node names only one of the two packages.
    assert_eq!(
        exec.resolve_download_input_objects(
            &info,
            InputStage::LatestPackages { system: system() },
            Some(Ok(vec![package(77, 1)]))
        ),
        Progress::Continue(InputStage::Resolve { latest: vec![] })
    );
    assert_eq!(
        exec.resolve_download_input_objects(&info, InputStage::Resolve { latest: vec![] }, None),
        Progress::Ask(
            Request::LatestObjects(vec![(0, 2)]),
            InputStage::Resolve { latest: vec![] }
        )
    );
    assert_eq!(
        exec.resolve_download_input_objects(
            &info,
            InputStage::Resolve { latest: vec![] },
            Some(Ok(vec![package(2, 99)]))
        ),
        Progress::Ask(
            Request::LatestObjects(vec![(0, 77)]),
            InputStage::Resolve { latest: vec![package(2, 99)] }
        )
    );
    let latest = vec![package(2, 99), package(77, 1)];
    let resolved = vec![
        (kinds[0], package(2, 12)),
        (kinds[1], object(40, 4)),
        (kinds[2], package(77, 1)),
        (kinds[3], object(20, 2)),
        (kinds[4], package(88, 3)),
    ];
    assert_eq!(
        exec.resolve_download_input_objects(
            &info,
            InputStage::Resolve { latest },
            Some(Ok(vec![package(88, 3)]))
        ),
        Progress::Done(Ok(resolved))
    );
}

#[test]
fn a_search_for_inputs_ends_with_the_first_error() {
    let timeout = || LocalExecError::SuiRpcRequestTimeout;
    let mut exec = session();
    let info = info(vec![owned(40, 4)]);
    assert_eq!(
        exec.resolve_download_input_objects(
            &info,
            InputStage::Owned,
            Some(Ok(vec![object(40, 4)]))
        ),
        Progress::Done(Err(LocalExecError::FrameworkObjectVersionTableNotPopulated { epoch: 4 }))
    );
    populate(&mut exec);
    for stage in [
        InputStage::Owned,
        InputStage::SystemPackages,
        InputStage::LatestPackages { system: vec![] },
    ] {
        assert_eq!(
            exec.resolve_download_input_objects(&info, stage, Some(Err(timeout()))),
            Progress::Done(Err(timeout()))
        );
    }
}

#[test]
fn the_preparation_stores_everything_that_is_needed() {
    let mut exec = session();
    populate(&mut exec);
    let info = info(vec![owned(40, 4), shared(20)]);
    assert_eq!(
        exec.initialize_execution_env_state(&info, EnvStage::Begin, None),
        Progress::Ask(Request::VersionedObjects(vec![((0, 10), 1)]), EnvStage::Modified)
    );
    assert_eq!(exec.current_protocol_version, 4);
    let objects = |objs: Vec<Object>| Some(EnvReply::Objects(Ok(objs)));
    assert_eq!(
        exec.initialize_execution_env_state(&info, EnvStage::Modified, objects(vec![object(10, 1)])),
        Progress::Ask(Request::VersionedObjects(vec![((0, 20), 2)]), EnvStage::Shared)
    );
    assert_eq!(
        exec.initialize_execution_env_state(&info, EnvStage::Shared, objects(vec![object(20, 2)])),
        Progress::Ask(Request::VersionedObjects(vec![((0, 30), 3)]), EnvStage::Gas)
    );
    assert_eq!(
        exec.initialize_execution_env_state(&info, EnvStage::Gas, objects(vec![object(30, 3)])),
        Progress::Ask(
            Request::VersionedObjects(vec![((0, 40), 4)]),
            EnvStage::Inputs(InputStage::Owned)
        )
    );
    assert!(matches!(
        exec.initialize_execution_env_state(
            &info,
            EnvStage::Inputs(InputStage::Owned),
            objects(vec![object(40, 4)])
        ),
        Progress::Ask(_, EnvStage::Inputs(InputStage::SystemPackages))
    ));
    let system = vec![package(1, 11), package(2, 12)];
    assert_eq!(
        exec.initialize_execution_env_state(
            &info,
            EnvStage::Inputs(InputStage::LatestPackages { system }),
            objects(vec![])
        ),
        Progress::Continue(EnvStage::Inputs(InputStage::Resolve { latest: vec![] }))
    );
    let resolved = || vec![(owned(40, 4), object(40, 4)), (shared(20), object(20, 2))];
    assert_eq!(
        exec.initialize_execution_env_state(
            &info,
            EnvStage::Inputs(InputStage::Resolve { latest: vec![] }),
            None
        ),
        Progress::Ask(
            Request::LoadedChildObjects(tx(50)),
            EnvStage::ChildRefs { inputs: resolved() }
        )
    );
    assert_eq!(
        exec.initialize_execution_env_state(
            &info,
            EnvStage::ChildRefs { inputs: resolved() },
            Some(EnvReply::ChildRefs(Ok(vec![((0, 60), 6)])))
        ),
        Progress::Ask(
            Request::VersionedObjects(vec![((0, 60), 6)]),
            EnvStage::Children { inputs: resolved() }
        )
    );
    assert_eq!(
        exec.initialize_execution_env_state(
            &info,
            EnvStage::Children { inputs: resolved() },
            objects(vec![object(60, 6)])
        ),
        Progress::Done(Ok(resolved()))
    );
    for id in [10, 20, 30, 40, 60] {
        assert!(exec.storage.live_object(&(0, id)).is_some(), "{}", id);
    }
    for id in [1, 2] {
        assert!(exec.storage.package(&(0, id)).is_some(), "{}", id);
        assert!(exec.storage.live_object(&(0, id)).is_none(), "{}", id);
    }
}

#[test]
fn the_preparation_ends_with_the_first_error() {
    let mut exec = session();
    let info = info(vec![shared(21)]);
    let timeout = || LocalExecError::SuiRpcRequestTimeout;
    for stage in [
        EnvStage::Modified,
        EnvStage::Shared,
        EnvStage::Gas,
        EnvStage::Inputs(InputStage::Owned),
        EnvStage::Children { inputs: vec![] },
    ] {
        assert_eq!(
            exec.initialize_execution_env_state(
                &info,
                stage,
                Some(EnvReply::Objects(Err(timeout())))
            ),
            Progress::Done(Err(timeout()))
        );
    }
    assert_eq!(
        exec.initialize_execution_env_state(
            &info,
            EnvStage::ChildRefs { inputs: vec![] },
            Some(EnvReply::ChildRefs(Err(timeout())))
        ),
        Progress::Done(Err(timeout()))
    );
    assert_eq!(
        exec.initialize_execution_env_state(
            &info,
            EnvStage::Gas,
            Some(EnvReply::Objects(Ok(vec![])))
        ),
        Progress::Done(Err(LocalExecError::InternalCacheInvariantViolation {
            id: (0, 21),
            version: None,
        }))
    );
}
