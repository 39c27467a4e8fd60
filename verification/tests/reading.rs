use std::sync::Arc;
use sui_replay::error::{ErrorText, LocalExecError, SuiError};
use sui_replay::local_exec::{LocalExec, NetworkParams};
use sui_replay::request::{Request, Step};
use sui_replay::resolver::{find_module, ExecutionStoreEvent, ModuleId};
use sui_replay::types::{
    Data, Object, ObjectDigest, Owner, StructTag, SuiAddress, TransactionDigest,
};

fn tx(n: u128) -> TransactionDigest {
    TransactionDigest { hi: 0, lo: n }
}

fn session() -> LocalExec {
    let params = NetworkParams {
        genesis_marker_tx: tx(1000),
        testnet_genesis_tx: tx(1),
        safe_mode_tx: tx(2),
        epoch_change_struct_tag: "0x3::a::B".to_string(),
        builtin_package_ids: vec![],
        deepbook_package_id: (0, 0xdee9),
        num_retries_for_timeout: 2,
        sleep_period_for_timeout_ms: 10,
    };
    LocalExec::new(Ok(vec![]), params).unwrap()
}

fn tag(name: &str) -> Arc<StructTag> {
    Arc::new(StructTag {
        address: (0, 2),
        module: "coin".to_string(),
        name: name.to_string(),
        type_params: vec![],
    })
}

fn object(id: u128, version: u64) -> Object {
    Object {
        id: (0, id),
        version,
        digest: ObjectDigest { hi: 7, lo: 8 },
        previous_transaction: tx(50),
        owner: Owner::ObjectOwner(SuiAddress { hi: 0, lo: 100 }),
        data: Arc::new(Data::Move { type_: tag("Coin"), contents: Arc::new(vec![1, 2, 3]) }),
    }
}

fn package(id: u128) -> Object {
    let mut obj = object(id, 1);
    obj.data = Arc::new(Data::Package { modules: vec![] });
    obj
}

fn module(name: &str) -> Arc<ModuleId> {
    Arc::new(ModuleId { address: (0, 6), name: name.to_string() })
}

#[test]
fn a_package_is_read_and_recorded() {
    let mut exec = session();
    assert_eq!(
        exec.get_package_object(&(0, 6), None),
        Step::Ask(Request::LatestObjects(vec![(0, 6)]))
    );
    assert!(exec.exec_store_events.is_empty());
    assert_eq!(
        exec.get_package_object(&(0, 6), Some(Ok(vec![package(6)]))),
        Step::Done(Ok(Some(package(6))))
    );
    assert_eq!(exec.get_package_object(&(0, 6), None), Step::Done(Ok(Some(package(6)))));
    let read = |result| ExecutionStoreEvent::BackingPackageGetPackageObject {
        package_id: (0, 6),
        result,
    };
    assert_eq!(
        exec.exec_store_events,
        vec![read(Ok(Some(package(6)))), read(Ok(Some(package(6))))]
    );
}

#[test]
fn a_package_that_cannot_be_had_is_a_storage_error() {
    let mut exec = session();
    let rpc = LocalExecError::SuiRpcError {
        err: ErrorText::Of(Arc::new(LocalExecError::SuiRpcRequestTimeout)),
    };
    let err = SuiError::GenericStorageError(ErrorText::Of(Arc::new(rpc)));
    assert_eq!(
        exec.get_package_object(&(0, 6), Some(Err(LocalExecError::SuiRpcRequestTimeout))),
        Step::Done(Err(err.clone()))
    );
    assert_eq!(
        exec.get_package_object(&(0, 6), Some(Err(LocalExecError::ObjectNotExist { id: (0, 6) }))),
        Step::Done(Ok(None))
    );
    let read = |result| ExecutionStoreEvent::BackingPackageGetPackageObject {
        package_id: (0, 6),
        result,
    };
    assert_eq!(exec.exec_store_events, vec![read(Err(err)), read(Ok(None))]);
}

#[test]
fn a_child_is_shown_to_its_parent_only() {
    let mut exec = session();
    exec.storage.backfill(&vec![object(4, 2)]);
    assert_eq!(exec.read_child_object(&(0, 100), &(0, 4)), Ok(Some(object(4, 2))));
    let err = SuiError::InvalidChildObjectAccess {
        object: (0, 4),
        given_parent: (0, 101),
        actual_owner: Owner::ObjectOwner(SuiAddress { hi: 0, lo: 100 }),
    };
    assert_eq!(exec.read_child_object(&(0, 101), &(0, 4)), Err(err.clone()));
    assert_eq!(exec.read_child_object(&(0, 100), &(0, 5)), Ok(None));
    let got = |object_id, result| ExecutionStoreEvent::ObjectStoreGetObject { object_id, result };
    let child = |parent, child, result| {
        ExecutionStoreEvent::ChildObjectResolverStoreReadChildObject { parent, child, result }
    };
    assert_eq!(
        exec.exec_store_events,
        vec![
            got((0, 4), Ok(Some(object(4, 2)))),
            child((0, 100), (0, 4), Ok(Some(object(4, 2)))),
            got((0, 4), Ok(Some(object(4, 2)))),
            child((0, 101), (0, 4), Err(err)),
            got((0, 5), Ok(None)),
            child((0, 100), (0, 5), Ok(None)),
        ]
    );
}

#[test]
fn an_address_owner_is_no_parent() {
    let mut exec = session();
    let mut obj = object(4, 2);
    obj.owner = Owner::AddressOwner(SuiAddress { hi: 0, lo: 100 });
    exec.storage.backfill(&vec![obj]);
    assert!(matches!(
        exec.read_child_object(&(0, 100), &(0, 4)),
        Err(SuiError::InvalidChildObjectAccess { .. })
    ));
}

#[test]
fn the_reference_of_a_live_object_is_read() {
    let mut exec = session();
    exec.storage.backfill(&vec![object(4, 2)]);
    let reference = ((0, 4), 2, ObjectDigest { hi: 7, lo: 8 });
    assert_eq!(exec.get_latest_parent_entry_ref((0, 4)), Ok(Some(reference)));
    assert_eq!(exec.get_latest_parent_entry_ref((0, 5)), Ok(None));
    assert_eq!(
        exec.exec_store_events,
        vec![
            ExecutionStoreEvent::ParentSyncStoreGetLatestParentEntryRef {
                object_id: (0, 4),
                result: Ok(Some(reference)),
            },
            ExecutionStoreEvent::ParentSyncStoreGetLatestParentEntryRef {
                object_id: (0, 5),
                result: Ok(None),
            },
        ]
    );
}

#[test]
fn a_value_is_read_with_its_type() {
    let mut exec = session();
    assert_eq!(
        exec.get_resource(&(0, 4), &tag("Coin"), None),
        Step::Ask(Request::LatestObjects(vec![(0, 4)]))
    );
    assert!(exec.is_resource_of(&(0, 4), &tag("Coin"), &Some(Ok(vec![object(4, 2)]))));
    assert!(!exec.is_resource_of(&(0, 4), &tag("Coins"), &Some(Ok(vec![object(4, 2)]))));
    assert!(!exec.is_resource_of(&(0, 6), &tag("Coin"), &Some(Ok(vec![package(6)]))));
    assert!(!exec.is_resource_of(&(0, 6), &tag("Coin"), &Some(Ok(vec![]))));
    assert_eq!(
        exec.get_resource(&(0, 4), &tag("Coin"), Some(Ok(vec![object(4, 2)]))),
        Step::Done(Ok(Some(Arc::new(vec![1, 2, 3]))))
    );
    let gone = LocalExecError::ObjectNotExist { id: (0, 4) };
    assert_eq!(
        exec.get_resource(&(0, 4), &tag("Coin"), Some(Err(gone))),
        Step::Done(Ok(None))
    );
    let rpc = LocalExecError::SuiRpcError {
        err: ErrorText::Of(Arc::new(LocalExecError::SuiRpcRequestTimeout)),
    };
    assert_eq!(
        exec.get_resource(&(0, 4), &tag("Coin"), Some(Err(LocalExecError::SuiRpcRequestTimeout))),
        Step::Done(Err(rpc.clone()))
    );
    let read = |result| ExecutionStoreEvent::ResourceResolverGetResource {
        address: (0, 4),
        typ: tag("Coin"),
        result,
    };
    assert_eq!(
        exec.exec_store_events,
        vec![read(Ok(Some(Arc::new(vec![1, 2, 3])))), read(Ok(None)), read(Err(rpc))]
    );
}

fn package_with_modules(id: u128) -> Object {
    let mut obj = object(id, 1);
    obj.data = Arc::new(Data::Package {
        modules: vec![
            ("a".to_string(), Arc::new(vec![1])),
            ("b".to_string(), Arc::new(vec![2])),
        ],
    });
    obj
}

#[test]
fn a_module_is_found_by_name_in_a_package_at_hand() {
    let mut exec = session();
    // The package is not at hand, and is not asked for.
    assert_eq!(exec.get_module(&module("b")), Ok(None));
    assert_eq!(
        exec.exec_store_events,
        vec![
            ExecutionStoreEvent::BackingPackageGetPackageObject {
                package_id: (0, 6),
                result: Ok(None),
            },
            ExecutionStoreEvent::ModuleResolverGetModule {
                module_id: module("b"),
                result: Ok(None),
            },
        ]
    );
    exec.storage.package_cache.insert((0, 6), package_with_modules(6));
    assert_eq!(exec.get_module(&module("b")), Ok(Some(Arc::new(vec![2]))));
    assert_eq!(exec.get_module(&module("c")), Ok(None));
    assert_eq!(exec.exec_store_events.len(), 6);
    assert_eq!(
        exec.exec_store_events[2],
        ExecutionStoreEvent::BackingPackageGetPackageObject {
            package_id: (0, 6),
            result: Ok(Some(package_with_modules(6))),
        }
    );
    assert_eq!(
        exec.exec_store_events[3],
        ExecutionStoreEvent::ModuleResolverGetModule {
            module_id: module("b"),
            result: Ok(Some(Arc::new(vec![2]))),
        }
    );
    // A value has no modules.
    exec.storage.package_cache.insert((0, 6), object(6, 1));
    assert_eq!(exec.get_module(&module("b")), Ok(None));
}

#[test]
fn the_first_module_with_a_name_counts() {
    let modules = vec![
        ("b".to_string(), Arc::new(vec![2])),
        ("b".to_string(), Arc::new(vec![3])),
    ];
    assert_eq!(find_module(&modules, &"b".to_string()), Some(Arc::new(vec![2])));
    assert_eq!(find_module(&modules, &"c".to_string()), None);
}

#[test]
fn a_module_in_binary_form_is_read_from_a_downloaded_package() {
    let mut exec = session();
    assert_eq!(
        exec.get_module_by_id(&module("a"), None),
        Step::Ask(Request::LatestObjects(vec![(0, 6)]))
    );
    assert!(exec.exec_store_events.is_empty());
    let timeout = LocalExecError::SuiRpcRequestTimeout;
    let err = SuiError::GenericStorageError(ErrorText::Of(Arc::new(LocalExecError::SuiRpcError {
        err: ErrorText::Of(Arc::new(timeout.clone())),
    })));
    assert_eq!(
        exec.get_module_by_id(&module("a"), Some(Err(timeout))),
        Step::Done(Err(LocalExecError::SuiError { err: err.clone() }))
    );
    assert_eq!(
        exec.get_module_by_id(
            &module("a"),
            Some(Err(LocalExecError::ObjectNotExist { id: (0, 6) }))
        ),
        Step::Done(Ok(None))
    );
    let bytes = Arc::new(vec![1]);
    assert_eq!(
        exec.get_module_by_id(&module("a"), Some(Ok(vec![package_with_modules(6)]))),
        Step::Done(Ok(Some(bytes.clone())))
    );
    // The package is at hand by now.
    assert_eq!(exec.get_module_by_id(&module("c"), None), Step::Done(Ok(None)));
    assert_eq!(exec.get_module(&module("a")), Ok(Some(bytes.clone())));
    assert_eq!(
        exec.exec_store_events[1],
        ExecutionStoreEvent::GetModuleGetModuleByModuleId {
            id: module("a"),
            result: Err(LocalExecError::SuiError { err }),
        }
    );
    assert_eq!(
        exec.exec_store_events[4],
        ExecutionStoreEvent::BackingPackageGetPackageObject {
            package_id: (0, 6),
            result: Ok(Some(package_with_modules(6))),
        }
    );
    assert_eq!(
        exec.exec_store_events[5],
        ExecutionStoreEvent::GetModuleGetModuleByModuleId {
            id: module("a"),
            result: Ok(Some(bytes)),
        }
    );
    assert_eq!(exec.exec_store_events.len(), 10);
}

#[test]
fn an_object_is_read_at_its_live_version_only() {
    let mut exec = session();
    exec.storage.backfill(&vec![object(4, 1), object(4, 2)]);
    assert_eq!(exec.get_object(&(0, 4)), Ok(Some(object(4, 2))));
    assert_eq!(exec.get_object(&(0, 5)), Ok(None));
    assert_eq!(exec.get_object_by_key(&(0, 4), 2), Ok(Some(object(4, 2))));
    assert_eq!(exec.get_object_by_key(&(0, 4), 1), Ok(None));
    assert_eq!(
        exec.exec_store_events[3],
        ExecutionStoreEvent::ObjectStoreGetObjectByKey {
            object_id: (0, 4),
            version: 1,
            result: Ok(None),
        }
    );
}
