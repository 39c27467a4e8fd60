//! The state of a replay session, and the questions that its tables answer.
use crate::error::{ErrorText, LocalExecError};
use crate::event::{clone_events, EventPage, SuiEvent};
use crate::listing::{
    borrowed_entries, entries, is_listing, law_every_map_has_its_listing, lemma_ids_are_ordered,
    lemma_numbers_are_ordered, listing, Key,
};
use crate::packages::lemma_system_packages;
use crate::request::{Request, RequestView, Step};
use crate::resolver::ExecutionStoreEvent;
use crate::storage::{Storage, StorageView};
use crate::struct_tag::{parse_struct_tag, parsed_type, TypeTagView, MAX_TYPE_NAME};
use crate::types::{
    same_id, EventCursor, ObjectID, SequenceNumber, StructTag, StructTagView, TransactionDigest,
};
use std::collections::BTreeMap;
use std::sync::Arc;
use vstd::pervasive::unreached;
use vstd::prelude::*;

verus! {

broadcast use {
    vstd::std_specs::btree::group_btree_axioms,
    vstd::laws_cmp::group_laws_cmp,
};

/// Where one protocol version was in force.
#[derive(Clone, Copy, Debug, PartialEq, Eq)]
pub struct ProtocolVersionSummary {
    /// Protocol version at this point
    pub protocol_version: u64,
    /// The first epoch that uses this protocol version
    pub epoch_start: u64,
    /// The last epoch that uses this protocol version
    pub epoch_end: u64,
    /// The first checkpoint in this protocol version
    pub checkpoint_start: u64,
    /// The last checkpoint in this protocol version
    pub checkpoint_end: u64,
    /// The transaction which triggered this epoch change
    pub epoch_change_tx: TransactionDigest,
}

/// What has to be known of the network and of the node that is asked.
#[derive(Debug, PartialEq, Eq)]
pub struct NetworkParams {
    /// What a genesis transaction is known by in every network.
    pub genesis_marker_tx: TransactionDigest,
    /// The transaction with which the test network began.
    pub testnet_genesis_tx: TransactionDigest,
    /// The transaction with which the test network went into safe mode.
    pub safe_mode_tx: TransactionDigest,
    /// The type of the events that mark the start of an epoch.
    pub epoch_change_struct_tag: String,
    /// The packages of the system.
    pub builtin_package_ids: Vec<ObjectID>,
    /// The one among them that came with protocol version 5.
    pub deepbook_package_id: ObjectID,
    /// How often a request that timed out is put again.
    pub num_retries_for_timeout: u32,
    /// How long to wait after a timeout, in milliseconds.
    pub sleep_period_for_timeout_ms: u64,
}

/// The first protocol version that has the deepbook package.
pub const DEEPBOOK_PROTOCOL_VERSION: u64 = 5;

/// A replay session.
#[derive(Debug)]
pub struct LocalExec {
    /// For each protocol version, the transaction that brought it and the epochs
    /// in which it was in force.
    pub protocol_version_epoch_table: BTreeMap<u64, ProtocolVersionSummary>,
    /// For each protocol version, the version of each package of the system.
    pub protocol_version_system_package_table: BTreeMap<u64, BTreeMap<ObjectID, SequenceNumber>>,
    /// The protocol version of the transaction that is replayed.
    pub current_protocol_version: u64,
    /// All objects.
    pub storage: Storage,
    /// What was read from the storage during execution.
    pub exec_store_events: Vec<ExecutionStoreEvent>,
    /// Whether the network is the test network, whose history has gaps.
    pub is_testnet: bool,
    /// The transaction with which the network began, and with it protocol version 1.
    pub genesis_tx: TransactionDigest,
    pub params: NetworkParams,
}

/// The transaction with which a network began, as its first checkpoint shows: that of the test
/// network where it is there, else the first one. A checkpoint without transactions shows only
/// what every network knows its genesis transaction by.
pub open spec fn genesis_in(
    first_checkpoint_txs: Seq<TransactionDigest>,
    params: NetworkParams,
) -> TransactionDigest {
    if first_checkpoint_txs.contains(params.testnet_genesis_tx) {
        params.testnet_genesis_tx
    } else if first_checkpoint_txs.len() > 0 {
        first_checkpoint_txs[0]
    } else {
        params.genesis_marker_tx
    }
}

/// What a session is at first: it knows nothing yet but how the network began and whether it is
/// the test network, both of which it sees from the transactions of the first checkpoint.
pub open spec fn is_new_session(
    first_checkpoint_txs: Result<Vec<TransactionDigest>, LocalExecError>,
    params: NetworkParams,
    r: Result<LocalExec, LocalExecError>,
) -> bool {
    match first_checkpoint_txs {
        Ok(txs) => {
            &&& r matches Ok(exec)
            &&& exec.protocol_version_epoch_table@ == Map::<u64, ProtocolVersionSummary>::empty()
            &&& exec.protocol_version_system_package_table@ == Map::<
                u64,
                BTreeMap<ObjectID, SequenceNumber>,
            >::empty()
            &&& exec.current_protocol_version == 0
            &&& exec.storage@ == StorageView::empty()
            &&& exec.exec_store_events@ == Seq::<ExecutionStoreEvent>::empty()
            &&& exec.is_testnet == txs@.contains(params.testnet_genesis_tx)
            &&& exec.genesis_tx == genesis_in(txs@, params)
            &&& exec.params == params
        },
        Err(err) => r == Err::<LocalExec, LocalExecError>(err),
    }
}

/// Whether no protocol version of a table has started by an epoch.
pub open spec fn none_started(table: Map<u64, (TransactionDigest, u64, u64)>, epoch: u64) -> bool {
    forall|other: u64| #[trigger] table.contains_key(other) ==> table[other].1 > epoch
}

/// Whether no protocol version of a table that has started by an epoch is higher than one.
pub open spec fn is_highest_started(
    table: Map<u64, (TransactionDigest, u64, u64)>,
    epoch: u64,
    version: u64,
) -> bool {
    forall|other: u64| #[trigger]
        table.contains_key(other) && table[other].1 <= epoch ==> other <= version
}

/// Whether a transaction is in a list.
fn contains_tx(txs: &Vec<TransactionDigest>, tx: &TransactionDigest) -> (r: bool)
    ensures
        r == txs@.contains(*tx),
{
    let mut i: usize = 0;
    while i < txs.len()
        invariant
            i <= txs.len(),
            forall|j: int| 0 <= j < i ==> #[trigger] txs@[j] != *tx,
        decreases txs.len() - i,
    {
        if txs[i] == *tx {
            assert(txs@[i as int] == *tx);
            return true;
        }
        i += 1;
    }
    false
}

/// The transaction with which a network began.
fn find_genesis(txs: &Vec<TransactionDigest>, is_testnet: bool, params: &NetworkParams) -> (r:
    TransactionDigest)
    requires
        is_testnet == txs@.contains(params.testnet_genesis_tx),
    ensures
        r == genesis_in(txs@, *params),
{
    if is_testnet {
        params.testnet_genesis_tx
    } else if txs.len() > 0 {
        txs[0]
    } else {
        params.genesis_marker_tx
    }
}

impl LocalExec {
    /// Everything but the storage is as it was.
    pub open spec fn same_but_storage(&self, old: &LocalExec) -> bool {
        *self == LocalExec { storage: self.storage, ..*old }
    }

    /// Everything but the list of what was read is as it was.
    pub open spec fn same_but_events(&self, old: &LocalExec) -> bool {
        *self == LocalExec { exec_store_events: self.exec_store_events, ..*old }
    }

    /// A session that knows nothing yet but how the network began and whether it is the test
    /// network, both of which it sees from the transactions of the first checkpoint.
    pub fn new(
        first_checkpoint_txs: Result<Vec<TransactionDigest>, LocalExecError>,
        params: NetworkParams,
    ) -> (r: Result<LocalExec, LocalExecError>)
        ensures
            is_new_session(first_checkpoint_txs, params, r),
    {
        let txs = match first_checkpoint_txs {
            Ok(txs) => txs,
            Err(err) => {
                return Err(err);
            },
        };
        let is_testnet: bool = contains_tx(&txs, &params.testnet_genesis_tx);
        let genesis_tx: TransactionDigest = find_genesis(&txs, is_testnet, &params);
        Ok(
            LocalExec {
                protocol_version_epoch_table: BTreeMap::new(),
                protocol_version_system_package_table: BTreeMap::new(),
                current_protocol_version: 0,
                storage: Storage::default(),
                exec_store_events: Vec::new(),
                is_testnet,
                genesis_tx,
                params,
            },
        )
    }

    /// Begins the session anew on the same network. Nothing of what it knew is kept.
    pub(crate) fn begin_anew(&mut self, first_checkpoint_txs: &Vec<TransactionDigest>)
        ensures
            is_new_session(
                Ok(*first_checkpoint_txs),
                old(self).params,
                Ok(*final(self)),
            ),
    {
        self.protocol_version_epoch_table = BTreeMap::new();
        self.protocol_version_system_package_table = BTreeMap::new();
        self.current_protocol_version = 0;
        self.storage = Storage::default();
        self.exec_store_events = Vec::new();
        self.is_testnet = contains_tx(first_checkpoint_txs, &self.params.testnet_genesis_tx);
        self.genesis_tx = find_genesis(first_checkpoint_txs, self.is_testnet, &self.params);
    }

    /// The packages of the system at a protocol version.
    pub open spec fn system_packages(&self, protocol_version: u64) -> Seq<ObjectID> {
        if protocol_version < DEEPBOOK_PROTOCOL_VERSION {
            self.params.builtin_package_ids@.filter(
                |id: ObjectID| id != self.params.deepbook_package_id,
            )
        } else {
            self.params.builtin_package_ids@
        }
    }

    /// The packages of the system at a protocol version.
    pub fn system_package_ids(&self, protocol_version: u64) -> (r: Vec<ObjectID>)
        ensures
            r@ == self.system_packages(protocol_version),
    {
        let all = &self.params.builtin_package_ids;
        let deepbook: ObjectID = self.params.deepbook_package_id;
        let mut ids: Vec<ObjectID> = Vec::new();
        let ghost keep: spec_fn(ObjectID) -> bool = if protocol_version
            < DEEPBOOK_PROTOCOL_VERSION {
            |id: ObjectID| id != self.params.deepbook_package_id
        } else {
            |id: ObjectID| true
        };
        proof {
            reveal(Seq::filter);
        }
        let mut i: usize = 0;
        while i < all.len()
            invariant
                i <= all.len(),
                all@ == self.params.builtin_package_ids@,
                deepbook == self.params.deepbook_package_id,
                protocol_version < DEEPBOOK_PROTOCOL_VERSION ==> keep == (|id: ObjectID|
                    id != self.params.deepbook_package_id) && ids@ == all@.take(i as int).filter(
                    keep,
                ),
                protocol_version >= DEEPBOOK_PROTOCOL_VERSION ==> ids@ == all@.take(i as int),
            decreases all.len() - i,
        {
            proof {
                reveal(Seq::filter);
                assert(all@.take(i + 1) =~= all@.take(i as int).push(all@[i as int]));
                assert(all@.take(i + 1).drop_last() =~= all@.take(i as int));
            }
            if !(protocol_version < DEEPBOOK_PROTOCOL_VERSION && same_id(&all[i], &deepbook)) {
                ids.push(all[i]);
            }
            i += 1;
        }
        assert(all@.take(i as int) =~= all@);
        ids
    }

    /// The version of each package of the system at a protocol version, in the
    /// order of the packages.
    ///
    /// The table that is read is filled by `populate_protocol_version_tables`.
    pub fn system_package_versions_for_epoch(&self, epoch: u64) -> (r: Result<
        Vec<(ObjectID, SequenceNumber)>,
        LocalExecError,
    >)
        ensures
            match r {
                Ok(versions) => self.protocol_version_system_package_table@.contains_key(epoch)
                    && versions@ == listing(self.protocol_version_system_package_table@[epoch]@),
                Err(err) => !self.protocol_version_system_package_table@.contains_key(epoch) && err
                    == (LocalExecError::FrameworkObjectVersionTableNotPopulated { epoch }),
            },
    {
        match self.protocol_version_system_package_table.get(&epoch) {
            Some(table) => {
                proof {
                    lemma_ids_are_ordered();
                }
                let all = entries(table);
                let ghost whole = listing(table@);
                let mut out: Vec<(ObjectID, SequenceNumber)> = Vec::new();
                let mut i: usize = 0;
                while i < all.len()
                    invariant
                        i <= all.len(),
                        borrowed_entries(all@) == whole,
                        out@ == whole.take(i as int),
                    decreases all.len() - i,
                {
                    assert(whole[i as int] == (all@[i as int].0, *all@[i as int].1));
                    out.push((all[i].0, *all[i].1));
                    assert(whole.take(i as int).push(whole[i as int]) =~= whole.take(i + 1));
                    i += 1;
                }
                assert(whole.len() == all@.len());
                assert(whole.take(i as int) =~= whole);
                Ok(out)
            },
            None => Err(LocalExecError::FrameworkObjectVersionTableNotPopulated { epoch }),
        }
    }

    /// Whether a protocol version is the highest that is in force at an epoch.
    pub open spec fn is_version_at(
        table: Map<u64, ProtocolVersionSummary>,
        epoch: u64,
        version: u64,
    ) -> bool {
        &&& table.contains_key(version)
        &&& table[version].epoch_start <= epoch
        &&& forall|other: u64| #[trigger]
            table.contains_key(other) && table[other].epoch_start <= epoch ==> other <= version
    }

    /// Whether all protocol versions start after an epoch.
    pub open spec fn is_before_all(table: Map<u64, ProtocolVersionSummary>, epoch: u64) -> bool {
        forall|other: u64| #[trigger]
            table.contains_key(other) ==> table[other].epoch_start > epoch
    }

    /// The protocol version at an epoch: the highest that started by then.
    pub fn get_protocol_config(&self, epoch_id: u64) -> (r: Result<u64, LocalExecError>)
        ensures
            match r {
                Ok(version) => Self::is_version_at(
                    self.protocol_version_epoch_table@,
                    epoch_id,
                    version,
                ),
                Err(err) => err == (LocalExecError::ProtocolVersionNotFound { epoch: epoch_id })
                    && Self::is_before_all(self.protocol_version_epoch_table@, epoch_id),
            },
    {
        let ghost table = self.protocol_version_epoch_table@;
        proof {
            lemma_numbers_are_ordered();
        }
        let all = entries(&self.protocol_version_epoch_table);
        let ghost whole = listing(table);
        let mut i: usize = all.len();
        while i > 0
            invariant
                i <= all.len(),
                table == self.protocol_version_epoch_table@,
                borrowed_entries(all@) == whole,
                is_listing(table, whole),
                forall|j: int|
                    i <= j < all.len() ==> (#[trigger] whole[j]).1.epoch_start > epoch_id,
            decreases i,
        {
            i -= 1;
            assert(whole[i as int] == (all@[i as int].0, *all@[i as int].1));
            if epoch_id >= all[i].1.epoch_start {
                assert forall|other: u64| #[trigger]
                    table.contains_key(other) && table[other].epoch_start
                        <= epoch_id implies other <= all@[i as int].0 by {
                    let k = choose|k: int| 0 <= k < whole.len() && (#[trigger] whole[k]).0 == other;
                    assert(table[whole[k].0] == whole[k].1);
                    if k < i {
                        assert(whole[k].0.before(whole[i as int].0));
                    }
                }
                assert(table.contains_key(whole[i as int].0));
                return Ok(all[i].0);
            }
        }
        assert forall|other: u64| #[trigger] table.contains_key(other) implies
            table[other].epoch_start > epoch_id by {
            let k = choose|k: int| 0 <= k < whole.len() && (#[trigger] whole[k]).0 == other;
            assert(table[whole[k].0] == whole[k].1);
        }
        Err(LocalExecError::ProtocolVersionNotFound { epoch: epoch_id })
    }

    /// The highest protocol version that started by an epoch, from a table of
    /// the transaction, the first and the last epoch of each version. An epoch
    /// before all of them has version 1.
    pub fn protocol_version_for_epoch(
        epoch: u64,
        mp: &BTreeMap<u64, (TransactionDigest, u64, u64)>,
    ) -> (r: u64)
        ensures
            (mp@.contains_key(r) && mp@[r].1 <= epoch) || (r == 1 && none_started(mp@, epoch)),
            is_highest_started(mp@, epoch, r),
    {
        proof {
            lemma_numbers_are_ordered();
        }
        let all = entries(mp);
        let ghost table = mp@;
        let ghost whole = listing(table);
        let mut version: u64 = 1;
        let mut i: usize = all.len();
        let mut found: bool = false;
        while i > 0 && !found
            invariant
                i <= all.len(),
                table == mp@,
                borrowed_entries(all@) == whole,
                is_listing(table, whole),
                !found ==> version == 1 && forall|j: int|
                    i <= j < all.len() ==> (#[trigger] whole[j]).1.1 > epoch,
                found ==> table.contains_key(version) && table[version].1 <= epoch && forall|
                    other: u64,
                | #[trigger]
                    table.contains_key(other) && table[other].1 <= epoch ==> other <= version,
            decreases i,
        {
            i -= 1;
            assert(whole[i as int] == (all@[i as int].0, *all@[i as int].1));
            if all[i].1.1 <= epoch {
                version = all[i].0;
                found = true;
                assert(table.contains_key(whole[i as int].0));
                assert forall|other: u64| #[trigger]
                    table.contains_key(other) && table[other].1 <= epoch implies other <= version by {
                    let k = choose|k: int| 0 <= k < whole.len() && (#[trigger] whole[k]).0 == other;
                    assert(table[whole[k].0] == whole[k].1);
                    if k < i {
                        assert(whole[k].0.before(whole[i as int].0));
                    }
                }
            }
        }
        if !found {
            assert forall|other: u64| #[trigger] table.contains_key(other) implies table[other].1
                > epoch by {
                let k = choose|k: int| 0 <= k < whole.len() && (#[trigger] whole[k]).0 == other;
                assert(table[whole[k].0] == whole[k].1);
            }
        }
        version
    }

    /// The request for the child objects that a transaction loaded.
    pub fn fetch_loaded_child_refs(&self, tx_digest: &TransactionDigest) -> (r: Request)
        ensures
            r@ == RequestView::LoadedChildObjects(*tx_digest),
    {
        Request::LoadedChildObjects(*tx_digest)
    }

    /// Whether a step asks for a page of the events that mark the start of each epoch, or
    /// fails because their type cannot be read.
    pub open spec fn asks_for_page<T>(
        &self,
        cursor: Option<EventCursor>,
        reverse: bool,
        r: Step<Result<T, LocalExecError>>,
    ) -> bool {
        match parsed_type(self.params.epoch_change_struct_tag@) {
            Ok(TypeTagView::Struct(struct_tag)) => r.asks(
                RequestView::EventPage { struct_tag, cursor, reverse },
            ),
            Ok(TypeTagView::Other(text)) => r matches Step::Done(
                Err(LocalExecError::InvalidStructTag { err }),
            ) && err@ == text,
            Err(message) => r matches Step::Done(Err(LocalExecError::InvalidStructTag { err }))
                && err@ == message,
        }
    }

    /// All events that mark the start of each epoch, page by page. The pages are what the
    /// node answered so far.
    pub fn get_epoch_change_events(&self, reverse: bool, pages: &Vec<PageReply>) -> (r: Step<
        Result<Vec<SuiEvent>, LocalExecError>,
    >)
        requires
            self.params.epoch_change_struct_tag@.len() <= MAX_TYPE_NAME,
            are_pages(pages@),
        ensures
            if pages@.len() == 0 {
                self.asks_for_page(None, reverse, r)
            } else {
                match pages@.last() {
                    Err(rpc_err) => r == Step::Done(
                        Err::<Vec<SuiEvent>, _>(
                            LocalExecError::UnableToQuerySystemEvents { rpc_err },
                        ),
                    ),
                    Ok(page) => if page.next is Some {
                        self.asks_for_page(page.next, reverse, r)
                    } else {
                        r matches Step::Done(Ok(events)) && events@ == all_events(pages@)
                    },
                }
            },
    {
        let mut cursor: Option<EventCursor> = None;
        if pages.len() > 0 {
            match &pages[pages.len() - 1] {
                Err(rpc_err) => {
                    return Step::Done(
                        Err(LocalExecError::UnableToQuerySystemEvents { rpc_err: rpc_err.clone() }),
                    );
                },
                Ok(page) => {
                    if page.next.is_none() {
                        return Step::Done(Ok(events_of_pages(pages)));
                    }
                    cursor = page.next;
                },
            }
        }
        request_page(
            parse_struct_tag(self.params.epoch_change_struct_tag.as_str()),
            cursor,
            reverse,
        )
    }

    /// The transactions of a checkpoint. `reply` is what the node answered, if it
    /// has been asked.
    pub fn get_checkpoint_txs(
        &self,
        checkpoint_id: u64,
        reply: Option<Result<Vec<TransactionDigest>, LocalExecError>>,
    ) -> (r: Step<Result<Vec<TransactionDigest>, LocalExecError>>)
        ensures
            match reply {
                None => r.asks(RequestView::CheckpointTransactions(checkpoint_id)),
                Some(Ok(txs)) => r == Step::Done(Ok::<_, LocalExecError>(txs)),
                Some(Err(err)) => r == Step::Done(
                    Err::<Vec<TransactionDigest>, _>(
                        LocalExecError::SuiRpcError { err: ErrorText::Of(Arc::new(err)) },
                    ),
                ),
            },
    {
        match reply {
            None => Step::Ask(Request::CheckpointTransactions(checkpoint_id)),
            Some(Ok(txs)) => Step::Done(Ok(txs)),
            Some(Err(err)) => Step::Done(
                Err(LocalExecError::SuiRpcError { err: ErrorText::Of(Arc::new(err)) }),
            ),
        }
    }
}

/// What a node answers to a request for a page of events.
pub type PageReply = Result<EventPage, String>;

/// Pages as they come one after the other: each but the last leads to the next.
pub open spec fn are_pages(pages: Seq<PageReply>) -> bool {
    forall|i: int|
        0 <= i < pages.len() - 1 ==> (#[trigger] pages[i] matches Ok(page) && page.next is Some)
}

/// The events of all pages, in their order.
pub open spec fn all_events(pages: Seq<PageReply>) -> Seq<SuiEvent>
    decreases pages.len(),
{
    if pages.len() == 0 {
        Seq::empty()
    } else {
        all_events(pages.drop_last()) + pages.last()->Ok_0.data@
    }
}

/// The events of all pages, in their order.
fn events_of_pages(pages: &Vec<PageReply>) -> (r: Vec<SuiEvent>)
    requires
        forall|i: int| 0 <= i < pages@.len() ==> (#[trigger] pages@[i]) is Ok,
    ensures
        r@ == all_events(pages@),
{
    let mut out: Vec<SuiEvent> = Vec::new();
    let mut i: usize = 0;
    while i < pages.len()
        invariant
            i <= pages.len(),
            forall|j: int| 0 <= j < pages@.len() ==> (#[trigger] pages@[j]) is Ok,
            out@ == all_events(pages@.take(i as int)),
        decreases pages.len() - i,
    {
        assert(pages@.take(i + 1).drop_last() =~= pages@.take(i as int));
        assert(pages@[i as int] is Ok);
        match &pages[i] {
            Ok(page) => {
                let mut more = clone_events(&page.data);
                out.append(&mut more);
            },
            Err(_) => {
                return unreached();
            },
        }
        i += 1;
    }
    assert(pages@.take(i as int) =~= pages@);
    out
}

/// The request for a page of the events of a type, or the error with which the type could
/// not be read.
fn request_page<T>(
    struct_tag: Result<StructTag, LocalExecError>,
    cursor: Option<EventCursor>,
    reverse: bool,
) -> (r: Step<Result<T, LocalExecError>>)
    ensures
        match struct_tag {
            Ok(struct_tag) => r.asks(
                RequestView::EventPage { struct_tag: struct_tag@, cursor, reverse },
            ),
            Err(err) => r == Step::Done(Err::<T, _>(err)),
        },
{
    match struct_tag {
        Ok(struct_tag) => Step::Ask(Request::EventPage { struct_tag, cursor, reverse }),
        Err(err) => Step::Done(Err(err)),
    }
}

/// At most one protocol version is in force at an epoch, and none at a later epoch is
/// lower.
pub proof fn law_versions_do_not_go_down(
    table: Map<u64, ProtocolVersionSummary>,
    epoch: u64,
    version: u64,
    later_epoch: u64,
    later_version: u64,
)
    requires
        epoch <= later_epoch,
        LocalExec::is_version_at(table, epoch, version),
        LocalExec::is_version_at(table, later_epoch, later_version),
    ensures
        version <= later_version,
        epoch == later_epoch ==> version == later_version,
{
}

/// A new session knows nothing but how its network began: the network is the test network
/// exactly if the first checkpoint holds the first transaction of the test network. That is its
/// genesis transaction then; else it is the first of the checkpoint. Where the first checkpoint
/// cannot be had there is no session.
pub proof fn law_a_new_session_knows_only_its_network(
    first_checkpoint_txs: Result<Vec<TransactionDigest>, LocalExecError>,
    params: NetworkParams,
    r: Result<LocalExec, LocalExecError>,
)
    requires
        call_ensures(LocalExec::new, (first_checkpoint_txs, params), r),
    ensures
        match first_checkpoint_txs {
            Err(err) => r == Err::<LocalExec, _>(err),
            Ok(txs) => {
                &&& r matches Ok(exec)
                &&& exec.is_testnet <==> exists|k: int|
                    0 <= k < txs@.len() && #[trigger] txs@[k] == params.testnet_genesis_tx
                &&& exec.is_testnet ==> exec.genesis_tx == params.testnet_genesis_tx
                &&& !exec.is_testnet && txs@.len() > 0 ==> exec.genesis_tx == txs@[0]
                &&& txs@.len() == 0 ==> exec.genesis_tx == params.genesis_marker_tx
                &&& exec.params == params
                &&& exec.current_protocol_version == 0
                &&& exec.protocol_version_epoch_table@.dom() =~= Set::empty()
                &&& exec.protocol_version_system_package_table@.dom() =~= Set::empty()
                &&& exec.storage@.live.dom() =~= Set::empty()
                &&& exec.storage@.packages.dom() =~= Set::empty()
                &&& exec.storage@.versions.dom() =~= Set::empty()
                &&& exec.exec_store_events@.len() == 0
            },
        },
{
    if let Ok(txs) = first_checkpoint_txs {
        let genesis = params.testnet_genesis_tx;
        if txs@.contains(genesis) {
            let k = txs@.index_of(genesis);
            assert(txs@[k] == genesis);
        }
    }
}

/// The packages of the system are those that are built in, in their order. Deepbook is one of them
/// from protocol version 5 on.
pub proof fn law_deepbook_came_with_version_five(
    exec: &LocalExec,
    protocol_version: u64,
    r: Vec<ObjectID>,
)
    requires
        call_ensures(LocalExec::system_package_ids, (exec, protocol_version), r),
    ensures
        r@ == exec.params.builtin_package_ids@.filter(
            |id: ObjectID| protocol_version >= 5 || id != exec.params.deepbook_package_id,
        ),
{
    lemma_system_packages(exec, protocol_version);
}

/// The versions of the packages of the system are all entries of the table of the protocol version,
/// each once, in the order of the identifiers. A protocol version without a table is an error.
pub proof fn law_package_versions_are_those_of_the_table(
    exec: &LocalExec,
    epoch: u64,
    r: Result<Vec<(ObjectID, SequenceNumber)>, LocalExecError>,
    id: ObjectID,
)
    requires
        call_ensures(LocalExec::system_package_versions_for_epoch, (exec, epoch), r),
    ensures
        ({
            let tables = exec.protocol_version_system_package_table@;
            if !tables.contains_key(epoch) {
                r == Err::<Vec<(ObjectID, SequenceNumber)>, _>(
                    LocalExecError::FrameworkObjectVersionTableNotPopulated { epoch },
                )
            } else {
                let table = tables[epoch]@;
                &&& r matches Ok(versions)
                &&& table.contains_key(id) ==> versions@.contains((id, table[id]))
                &&& forall|k: int|
                    0 <= k < versions@.len() ==> table.contains_pair(
                        (#[trigger] versions@[k]).0,
                        versions@[k].1,
                    )
                &&& forall|k: int, l: int|
                    0 <= k < l < versions@.len() ==> (#[trigger] versions@[k]).0.0 < (
                    #[trigger] versions@[l]).0.0 || (versions@[k].0.0 == versions@[l].0.0
                        && versions@[k].0.1 < versions@[l].0.1)
            }
        }),
{
    let tables = exec.protocol_version_system_package_table@;
    if tables.contains_key(epoch) {
        let table = tables[epoch]@;
        law_every_map_has_its_listing(table);
        let whole = listing(table);
        if table.contains_key(id) {
            let k = choose|k: int| 0 <= k < whole.len() && (#[trigger] whole[k]).0 == id;
            assert(whole[k] == (id, table[id]));
        }
        assert forall|k: int, l: int| 0 <= k < l < whole.len() implies (#[trigger] whole[k]).0.0 < (
        #[trigger] whole[l]).0.0 || (whole[k].0.0 == whole[l].0.0 && whole[k].0.1
            < whole[l].0.1) by {
            assert(whole[k].0.before(whole[l].0));
        }
    }
}

/// The protocol version at an epoch is the highest of those that have started by then. Before
/// all of them there is none.
pub proof fn law_the_highest_version_that_started_is_in_force(
    exec: &LocalExec,
    epoch: u64,
    r: Result<u64, LocalExecError>,
    version: u64,
)
    requires
        call_ensures(LocalExec::get_protocol_config, (exec, epoch), r),
    ensures
        ({
            let table = exec.protocol_version_epoch_table@;
            let has_started = table.contains_key(version) && table[version].epoch_start <= epoch;
            match r {
                Ok(found) => {
                    &&& table.contains_key(found)
                    &&& table[found].epoch_start <= epoch
                    &&& has_started ==> version <= found
                },
                Err(err) => !has_started && err == (LocalExecError::ProtocolVersionNotFound {
                    epoch,
                }),
            }
        }),
{
}

/// The same holds of a table of transactions and epochs, but before all protocol versions it is
/// version 1.
pub proof fn law_version_one_is_in_force_before_all(
    epoch: u64,
    mp: &BTreeMap<u64, (TransactionDigest, u64, u64)>,
    r: u64,
    version: u64,
)
    requires
        call_ensures(LocalExec::protocol_version_for_epoch, (epoch, mp), r),
    ensures
        mp@.contains_key(version) && mp@[version].1 <= epoch ==> version <= r && mp@.contains_key(r)
            && mp@[r].1 <= epoch,
        mp@.contains_key(r) && mp@[r].1 <= epoch || r == 1,
{
}

/// The child objects of a transaction are asked for by its digest.
pub proof fn law_children_are_asked_for_by_digest(
    exec: &LocalExec,
    tx_digest: &TransactionDigest,
    r: Request,
)
    requires
        call_ensures(LocalExec::fetch_loaded_child_refs, (exec, tx_digest), r),
    ensures
        r == Request::LoadedChildObjects(*tx_digest),
{
}

/// The transactions of a checkpoint are asked for by its number, and are what the node answers. A
/// failure is an error with the reason in it.
pub proof fn law_checkpoints_are_asked_for_by_number(
    exec: &LocalExec,
    checkpoint: u64,
    reply: Option<Result<Vec<TransactionDigest>, LocalExecError>>,
    r: Step<Result<Vec<TransactionDigest>, LocalExecError>>,
)
    requires
        call_ensures(LocalExec::get_checkpoint_txs, (exec, checkpoint, reply), r),
    ensures
        match reply {
            None => r == Step::<Result<Vec<TransactionDigest>, LocalExecError>>::Ask(
                Request::CheckpointTransactions(checkpoint),
            ),
            Some(Ok(txs)) => r == Step::Done(Ok::<_, LocalExecError>(txs)),
            Some(Err(err)) => r == Step::Done(
                Err::<Vec<TransactionDigest>, _>(
                    LocalExecError::SuiRpcError { err: ErrorText::Of(Arc::new(err)) },
                ),
            ),
        },
{
}

proof fn lemma_all_events(pages: Seq<PageReply>, lists: Seq<Seq<SuiEvent>>)
    requires
        lists.len() == pages.len(),
        forall|k: int| 0 <= k < lists.len() ==> #[trigger] lists[k] == pages[k]->Ok_0.data@,
    ensures
        all_events(pages) == lists.flatten_alt(),
    decreases pages.len(),
{
    if pages.len() > 0 {
        let shorter = lists.drop_last();
        assert forall|k: int| 0 <= k < shorter.len() implies #[trigger] shorter[k]
            == pages.drop_last()[k]->Ok_0.data@ by {
            assert(shorter[k] == lists[k]);
        }
        lemma_all_events(pages.drop_last(), shorter);
        assert(lists[lists.len() - 1] == pages.last()->Ok_0.data@);
    }
}

/// The events are gotten page by page: at first the first page is asked for, then, as long as
/// the last page says that there are more, the page behind the event that it names. The pages
/// are of the events of the type that the session is given, in the order that is wanted. The
/// result is the events of all pages, in their order.
pub proof fn law_all_pages_of_events_are_gotten(
    exec: &LocalExec,
    reverse: bool,
    pages: &Vec<PageReply>,
    lists: Seq<Seq<SuiEvent>>,
    event_type: StructTagView,
    r: Step<Result<Vec<SuiEvent>, LocalExecError>>,
)
    requires
        exec.params.epoch_change_struct_tag@.len() <= 4096,
        forall|k: int|
            0 <= k < pages@.len() - 1 ==> (#[trigger] pages@[k] matches Ok(page) && page.next
                is Some),
        pages@.len() > 0 ==> pages@.last() is Ok,
        lists.len() == pages@.len(),
        forall|k: int|
            0 <= k < lists.len() ==> #[trigger] lists[k] == pages@[k]->Ok_0.data@,
        parsed_type(exec.params.epoch_change_struct_tag@) == Ok::<_, Seq<char>>(
            TypeTagView::Struct(event_type),
        ),
        call_ensures(LocalExec::get_epoch_change_events, (exec, reverse, pages), r),
    ensures
        ({
            let behind = if pages@.len() == 0 {
                None
            } else {
                pages@.last()->Ok_0.next
            };
            if pages@.len() == 0 || behind is Some {
                &&& r matches Step::Ask(Request::EventPage { struct_tag, cursor, reverse: order })
                &&& struct_tag@ == event_type
                &&& cursor == behind
                &&& order == reverse
            } else {
                r matches Step::Done(Ok(events)) && events@ == lists.flatten_alt()
            }
        }),
{
    assert(are_pages(pages@));
    lemma_all_events(pages@, lists);
}

/// A page that cannot be had ends it, with the reason in the error, and so does a type of events
/// that is no struct type.
pub proof fn law_events_may_not_be_had(
    exec: &LocalExec,
    reverse: bool,
    pages: &Vec<PageReply>,
    words: Seq<char>,
    r: Step<Result<Vec<SuiEvent>, LocalExecError>>,
)
    requires
        exec.params.epoch_change_struct_tag@.len() <= 4096,
        forall|k: int|
            0 <= k < pages@.len() - 1 ==> (#[trigger] pages@[k] matches Ok(page) && page.next
                is Some),
        call_ensures(LocalExec::get_epoch_change_events, (exec, reverse, pages), r),
    ensures
        pages@.len() > 0 ==> (pages@.last() matches Err(rpc_err) ==> r == Step::Done(
            Err::<Vec<SuiEvent>, _>(LocalExecError::UnableToQuerySystemEvents { rpc_err }),
        )),
        (pages@.len() == 0 || (pages@.last() matches Ok(page) && page.next is Some)) && (
        parsed_type(exec.params.epoch_change_struct_tag@) == Ok::<_, Seq<char>>(
            TypeTagView::Other(words),
        ) || parsed_type(exec.params.epoch_change_struct_tag@) == Err::<TypeTagView, _>(words))
            ==> (r matches Step::Done(Err(LocalExecError::InvalidStructTag { err })) && err@
            == words),
{
    assert(are_pages(pages@));
}

} // verus!
