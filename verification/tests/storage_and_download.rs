use std::sync::Arc;
use sui_replay::download::{Download, DownloadStep, ObjectsReply, Wanted};
use sui_replay::error::{ErrorText, LocalExecError};
use sui_replay::local_exec::{LocalExec, NetworkParams};
use sui_replay::request::{Request, Step};
use sui_replay::storage::Storage;
use sui_replay::types::{
    Data, Object, ObjectDigest, ObjectID, Owner, StructTag, SuiAddress, TransactionDigest,
};

fn tx(n: u128) -> TransactionDigest {
    TransactionDigest { hi: 0, lo: n }
}

fn params() -> NetworkParams {
    NetworkParams {
        genesis_marker_tx: tx(1000),
        testnet_genesis_tx: tx(1),
        safe_mode_tx: tx(2),
        epoch_change_struct_tag: "0x3::sui_system_state_inner::SystemEpochInfoEvent".to_string(),
        builtin_package_ids: vec![(0, 1), (0, 2), (0, 3), (0, 0xdee9)],
        deepbook_package_id: (0, 0xdee9),
        num_retries_for_timeout: 2,
        sleep_period_for_timeout_ms: 10,
    }
}

fn session() -> LocalExec {
    LocalExec::new(Ok(vec![tx(7)]), params()).unwrap()
}

fn object(id: u128, version: u64) -> Object {
    Object {
        id: (0, id),
        version,
        digest: ObjectDigest { hi: id, lo: version as u128 },
        previous_transaction: tx(50),
        owner: Owner::AddressOwner(SuiAddress { hi: 0, lo: 5 }),
        data: Arc::new(Data::Move {
            type_: Arc::new(StructTag {
                address: (0, 2),
                module: "coin".to_string(),
                name: "Coin".to_string(),
                type_params: vec![],
            }),
            contents: Arc::new(vec![1, 2, 3]),
        }),
    }
}

fn package(id: u128, version: u64) -> Object {
    let mut obj = object(id, version);
    obj.data = Arc::new(Data::Package { modules: vec![("m".to_string(), Arc::new(vec![9]))] });
    obj
}

fn not_exist(id: ObjectID) -> LocalExecError {
    LocalExecError::ObjectNotExist { id }
}

#[test]
fn an_empty_storage_has_no_objects() {
    assert!(Storage::default().all_objects().is_empty());
}

#[test]
fn all_objects_come_group_by_group_and_in_order() {
    let mut storage = Storage::default();
    storage.backfill(&vec![object(9, 1), object(4, 2), package(6, 3)]);
    let ids: Vec<u128> = storage.all_objects().iter().map(|o| o.id.1).collect();
    assert_eq!(ids, vec![4, 6, 9, 6, 4, 6, 9]);
}

#[test]
fn identifiers_are_ordered_by_their_high_half_first() {
    let mut storage = Storage::default();
    let mut high = object(1, 1);
    high.id = (1, 0);
    storage.backfill(&vec![high, object(u128::MAX, 1)]);
    let ids: Vec<ObjectID> = storage.all_objects().iter().map(|o| o.id).collect();
    assert_eq!(ids[0], (0, u128::MAX));
    assert_eq!(ids[1], (1, 0));
}

#[test]
fn the_summary_lists_references_and_versions() {
    let mut storage = Storage::default();
    storage.backfill(&vec![package(6, 3), object(4, 2)]);
    let summary = storage.summary();
    assert_eq!(
        summary.live,
        vec![
            ((0, 4), ((0, 4), 2, ObjectDigest { hi: 4, lo: 2 })),
            ((0, 6), ((0, 6), 3, ObjectDigest { hi: 6, lo: 3 })),
        ]
    );
    assert_eq!(summary.packages, vec![((0, 6), ((0, 6), 3, ObjectDigest { hi: 6, lo: 3 }))]);
    assert_eq!(summary.versions, vec![((0, 4), 2), ((0, 6), 3)]);
}

#[test]
fn the_last_of_several_versions_is_live_and_all_are_held() {
    let mut storage = Storage::default();
    storage.backfill(&vec![object(4, 2), object(4, 1)]);
    assert_eq!(storage.live_object(&(0, 4)), Some(object(4, 1)));
    assert_eq!(storage.object_at(&(0, 4), 2), Some(object(4, 2)));
    assert_eq!(storage.object_at(&(0, 4), 1), Some(object(4, 1)));
    assert_eq!(storage.object_at(&(0, 4), 3), None);
    assert_eq!(storage.package(&(0, 4)), None);
}

#[test]
fn storing_keeps_other_entries() {
    let mut storage = Storage::default();
    storage.backfill(&vec![object(4, 2)]);
    storage.backfill(&vec![object(5, 1)]);
    assert_eq!(storage.live_object(&(0, 4)), Some(object(4, 2)));
    assert_eq!(storage.live_object(&(0, 5)), Some(object(5, 1)));
}

#[test]
fn caching_makes_nothing_live() {
    let mut storage = Storage::default();
    storage.cache_all(&vec![object(4, 2), package(6, 3)]);
    assert_eq!(storage.live_object(&(0, 4)), None);
    assert_eq!(storage.live_object(&(0, 6)), None);
    assert_eq!(storage.package(&(0, 6)), Some(package(6, 3)));
    assert_eq!(storage.object_at(&(0, 4), 2), Some(object(4, 2)));
}

#[test]
fn a_download_asks_for_what_it_was_given() {
    let exec = session();
    let download = exec.multi_download(&vec![((0, 4), 2)]);
    assert_eq!(
        download.poll(),
        DownloadStep::Fetch(Request::VersionedObjects(vec![((0, 4), 2)]))
    );
    let latest = exec.multi_download_latest(&vec![(0, 4), (0, 5)]);
    assert_eq!(
        latest.poll(),
        DownloadStep::Fetch(Request::LatestObjects(vec![(0, 4), (0, 5)]))
    );
    assert_eq!(
        latest,
        Download {
            wanted: Wanted::Latest(vec![(0, 4), (0, 5)]),
            retries_left: 2,
            sleep_period_ms: 10,
        }
    );
}

#[test]
fn a_timeout_is_followed_by_a_pause_and_another_try() {
    let exec = session();
    let mut download = exec.multi_download(&vec![((0, 4), 2)]);
    assert_eq!(
        download.on_reply(Err(LocalExecError::SuiRpcRequestTimeout)),
        DownloadStep::Sleep(10)
    );
    assert_eq!(download.retries_left, 1);
    assert!(matches!(download.poll(), DownloadStep::Fetch(_)));
    assert_eq!(
        download.on_reply(Ok(vec![object(4, 2)])),
        DownloadStep::Done(Ok(vec![object(4, 2)]))
    );
}

#[test]
fn a_download_gives_up_after_all_retries() {
    let exec = session();
    let mut download = exec.multi_download(&vec![((0, 4), 2)]);
    let mut fetches: u32 = 0;
    while let DownloadStep::Fetch(_) = download.poll() {
        fetches += 1;
        let step = download.on_reply(Err(LocalExecError::SuiRpcRequestTimeout));
        assert_eq!(step, DownloadStep::Sleep(10));
    }
    assert_eq!(fetches, 3);
    assert_eq!(download.poll(), DownloadStep::Done(Err(LocalExecError::SuiRpcRequestTimeout)));
}

#[test]
fn another_error_ends_a_download_at_once() {
    let exec = session();
    let mut download = exec.multi_download_latest(&vec![(0, 4)]);
    assert_eq!(
        download.on_reply(Err(not_exist((0, 4)))),
        DownloadStep::Done(Err(not_exist((0, 4))))
    );
    assert_eq!(download.retries_left, 2);
}

#[test]
fn downloaded_objects_become_live() {
    let mut exec = session();
    let wanted = vec![((0, 4), 2)];
    assert_eq!(
        exec.multi_download_and_store(&wanted, None),
        Step::Ask(Request::VersionedObjects(wanted.clone()))
    );
    assert_eq!(
        exec.multi_download_and_store(&wanted, Some(Ok(vec![object(4, 2)]))),
        Step::Done(Ok(vec![object(4, 2)]))
    );
    assert_eq!(exec.storage.live_object(&(0, 4)), Some(object(4, 2)));
    assert_eq!(
        exec.multi_download_and_store(&wanted, Some(Err(not_exist((0, 4))))),
        Step::Done(Err(not_exist((0, 4))))
    );
}

#[test]
fn packages_of_the_system_come_at_fixed_versions() {
    let mut exec = session();
    exec.current_protocol_version = 4;
    let wanted: Vec<ObjectID> = vec![(0, 2), (0, 77), (0, 0xdee9)];
    assert_eq!(
        exec.multi_download_relevant_packages_and_store(&wanted, 4, &None, &None),
        Step::Done(Err(LocalExecError::FrameworkObjectVersionTableNotPopulated { epoch: 4 }))
    );
    let mut table = std::collections::BTreeMap::new();
    table.insert((0, 3), 8);
    table.insert((0, 2), 9);
    exec.protocol_version_system_package_table.insert(4, table);
    assert_eq!(
        exec.multi_download_relevant_packages_and_store(&wanted, 4, &None, &None),
        Step::Ask(Request::VersionedObjects(vec![((0, 2), 9), ((0, 3), 8)]))
    );
    let system: Option<ObjectsReply> = Some(Ok(vec![package(2, 9), package(3, 8)]));
    // The deepbook package is none of the system before version 5.
    assert_eq!(
        exec.multi_download_relevant_packages_and_store(&wanted, 4, &system, &None),
        Step::Ask(Request::LatestObjects(vec![(0, 77), (0, 0xdee9)]))
    );
    exec.current_protocol_version = 5;
    assert_eq!(
        exec.multi_download_relevant_packages_and_store(&wanted, 4, &system, &None),
        Step::Ask(Request::LatestObjects(vec![(0, 77)]))
    );
    let latest: Option<ObjectsReply> = Some(Ok(vec![package(77, 1)]));
    assert_eq!(
        exec.multi_download_relevant_packages_and_store(&wanted, 4, &system, &latest),
        Step::Done(Ok(vec![package(77, 1), package(2, 9), package(3, 8)]))
    );
    assert_eq!(exec.storage.package(&(0, 77)), Some(package(77, 1)));
    assert_eq!(exec.storage.live_object(&(0, 77)), None);
    let gone: Option<ObjectsReply> = Some(Err(not_exist((0, 77))));
    assert_eq!(
        exec.multi_download_relevant_packages_and_store(&wanted, 4, &system, &gone),
        Step::Done(Err(not_exist((0, 77))))
    );
    assert_eq!(
        exec.multi_download_relevant_packages_and_store(&wanted, 4, &gone, &None),
        Step::Done(Err(not_exist((0, 77))))
    );
}

#[test]
fn an_object_at_a_version_is_downloaded_once() {
    let mut exec = session();
    assert_eq!(
        exec.download_object(&(0, 4), 2, None),
        Step::Ask(Request::VersionedObjects(vec![((0, 4), 2)]))
    );
    // The last object of the reply counts.
    assert_eq!(
        exec.download_object(&(0, 4), 2, Some(Ok(vec![object(8, 8), object(4, 2)]))),
        Step::Done(Ok(object(4, 2)))
    );
    assert_eq!(exec.download_object(&(0, 4), 2, None), Step::Done(Ok(object(4, 2))));
    assert_eq!(exec.storage.live_object(&(0, 4)), None);
    assert_eq!(
        exec.download_object(&(0, 5), 2, Some(Err(not_exist((0, 5))))),
        Step::Done(Err(not_exist((0, 5))))
    );
}

#[test]
fn a_missing_latest_object_is_no_error() {
    let exec = session();
    assert_eq!(
        exec.download_latest_object(&(0, 4), None),
        Step::Ask(Request::LatestObjects(vec![(0, 4)]))
    );
    assert_eq!(
        exec.download_latest_object(&(0, 4), Some(Ok(vec![object(4, 2)]))),
        Step::Done(Ok(Some(object(4, 2))))
    );
    assert_eq!(
        exec.download_latest_object(&(0, 4), Some(Err(not_exist((0, 4))))),
        Step::Done(Ok(None))
    );
    let deleted = LocalExecError::ObjectDeleted {
        id: (0, 4),
        version: 3,
        digest: ObjectDigest { hi: 0, lo: 0 },
    };
    assert_eq!(exec.download_latest_object(&(0, 4), Some(Err(deleted))), Step::Done(Ok(None)));
    assert_eq!(
        exec.download_latest_object(&(0, 4), Some(Err(LocalExecError::SuiRpcRequestTimeout))),
        Step::Done(Err(LocalExecError::SuiRpcError {
            err: ErrorText::Of(Arc::new(LocalExecError::SuiRpcRequestTimeout)),
        }))
    );
}

#[test]
fn a_downloaded_package_is_at_hand_and_another_object_is_not() {
    let mut exec = session();
    assert_eq!(
        exec.get_or_download_object(&(0, 6), true, None),
        Step::Ask(Request::LatestObjects(vec![(0, 6)]))
    );
    assert_eq!(
        exec.get_or_download_object(&(0, 6), true, Some(Ok(vec![package(6, 3)]))),
        Step::Done(Ok(Some(package(6, 3))))
    );
    assert_eq!(
        exec.get_or_download_object(&(0, 6), true, None),
        Step::Done(Ok(Some(package(6, 3))))
    );
    assert_eq!(
        exec.get_or_download_object(&(0, 4), false, Some(Ok(vec![object(4, 2)]))),
        Step::Done(Ok(Some(object(4, 2))))
    );
    assert_eq!(
        exec.get_or_download_object(&(0, 4), false, None),
        Step::Ask(Request::LatestObjects(vec![(0, 4)]))
    );
    assert_eq!(exec.storage.object_at(&(0, 4), 2), Some(object(4, 2)));
    exec.storage.backfill(&vec![object(4, 2)]);
    assert_eq!(
        exec.get_or_download_object(&(0, 4), false, None),
        Step::Done(Ok(Some(object(4, 2))))
    );
}

#[test]
fn a_package_is_kept_under_the_identifier_it_was_asked_for_by() {
    let mut exec = session();
    let step = exec.get_or_download_object(&(0, 60), true, Some(Ok(vec![package(6, 3)])));
    assert_eq!(step, Step::Done(Ok(Some(package(6, 3)))));
    assert_eq!(exec.storage.package(&(0, 60)), Some(package(6, 3)));
    assert_eq!(exec.storage.package(&(0, 6)), None);
    assert_eq!(exec.storage.object_at(&(0, 6), 3), Some(package(6, 3)));
}
