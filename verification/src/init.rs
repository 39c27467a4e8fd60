//! Filling the tables of a session before anything is replayed.
use crate::checkpoints::TransactionsReply;
use crate::download::ObjectsReply;
use crate::error::LocalExecError;
use crate::event::{EventsReply, SuiEvent};
use crate::local_exec::{genesis_in, is_new_session, LocalExec, ProtocolVersionSummary};
use crate::packages::{
    are_rounds, brings_none, fills_tables, is_last_by, is_last_round, lemma_filled_tables,
    revisions_view, Revisions,
};
use crate::protocol::{leading_starts, EpochStart, TransactionReply};
use crate::request::{Request, RequestView, Step};
use crate::types::{Object, ObjectID, SequenceNumber, TransactionDigest};
use std::collections::BTreeMap;
use vstd::prelude::*;

verus! {

broadcast use {
    vstd::std_specs::btree::group_btree_axioms,
    vstd::laws_cmp::group_laws_cmp,
};

/// A session that knows where each protocol version was in force.
pub open spec fn with_ranges(
    exec: &LocalExec,
    ranges: BTreeMap<u64, ProtocolVersionSummary>,
) -> LocalExec {
    LocalExec { protocol_version_epoch_table: ranges, ..*exec }
}

/// What becomes of a session that knows where each protocol version was in force: the
/// versions of the packages are looked up, and then the tables are filled.
pub open spec fn init_with_ranges(
    before: &LocalExec,
    ranges: BTreeMap<u64, ProtocolVersionSummary>,
    package_replies: Seq<ObjectsReply>,
    after: &LocalExec,
    r: Step<Result<(), LocalExecError>>,
) -> bool {
    exists|found: Step<Result<Revisions, LocalExecError>>|
        {
            &&& #[trigger] with_ranges(before, ranges).revisions_step(package_replies, found)
            &&& match found {
                Step::Ask(request) => *after == with_ranges(before, ranges) && r == Step::<
                    Result<(), LocalExecError>,
                >::Ask(request),
                Step::Done(revisions) => r matches Step::Done(result) && fills_tables(
                    &with_ranges(before, ranges),
                    revisions,
                    after,
                    result,
                ),
            }
        }
}

/// What becomes of a session with the replies so far.
pub open spec fn init_step(
    before: &LocalExec,
    events_reply: Option<EventsReply>,
    tx_replies: Seq<TransactionReply>,
    package_replies: Seq<ObjectsReply>,
    after: &LocalExec,
    r: Step<Result<(), LocalExecError>>,
) -> bool {
    exists|history: Step<Result<BTreeMap<u64, ProtocolVersionSummary>, LocalExecError>>|
        {
            &&& #[trigger] before.history_step(events_reply, tx_replies, history)
            &&& match history {
                Step::Ask(request) => *after == *before && r == Step::<
                    Result<(), LocalExecError>,
                >::Ask(request),
                Step::Done(Err(err)) => *after == *before && r == Step::Done(Err::<(), _>(err)),
                Step::Done(Ok(ranges)) => init_with_ranges(
                    before,
                    ranges,
                    package_replies,
                    after,
                    r,
                ),
            }
        }
}

/// What becomes of a session that begins anew, with the replies so far: the first checkpoint
/// is asked for, and the new session is filled.
pub open spec fn reset_step(
    before: &LocalExec,
    first_checkpoint_txs: Option<TransactionsReply>,
    events_reply: Option<EventsReply>,
    tx_replies: Seq<TransactionReply>,
    package_replies: Seq<ObjectsReply>,
    after: &LocalExec,
    r: Step<Result<(), LocalExecError>>,
) -> bool {
    match first_checkpoint_txs {
        None => r.asks(RequestView::CheckpointTransactions(0)) && *after == *before,
        Some(Err(err)) => r == Step::Done(Err::<(), _>(err)) && *after == *before,
        Some(Ok(txs)) => exists|fresh: LocalExec|
            {
                &&& #[trigger] is_new_session(Ok(txs), before.params, Ok(fresh))
                &&& init_step(&fresh, events_reply, tx_replies, package_replies, after, r)
            },
    }
}

impl LocalExec {
    /// Whether the replies are such as a node gives when the tables are filled.
    pub open spec fn can_fill(
        &self,
        events_reply: Option<EventsReply>,
        tx_replies: Seq<TransactionReply>,
        package_replies: Seq<ObjectsReply>,
    ) -> bool {
        &&& events_reply matches Some(Ok(events)) ==> self.replies_fit(events@, tx_replies)
        &&& are_rounds(package_replies)
        // Protocol versions begin with 1.
        &&& is_last_round(package_replies) ==> (events_reply matches Some(Ok(events))
            ==> !self.version_history(leading_starts(events@)).ranges(tx_replies).contains_key(0))
    }

    /// The session on a network that began with some transactions.
    pub open spec fn on_network(&self, first_checkpoint_txs: Seq<TransactionDigest>) -> LocalExec {
        LocalExec {
            is_testnet: first_checkpoint_txs.contains(self.params.testnet_genesis_tx),
            genesis_tx: genesis_in(first_checkpoint_txs, self.params),
            ..*self
        }
    }

    /// Begins the session anew and fills its tables, as `new` and `init_for_execution` do. The
    /// replies are what the node answered so far.
    pub fn reset_for_new_execution(
        &mut self,
        first_checkpoint_txs: &Option<TransactionsReply>,
        events_reply: &Option<EventsReply>,
        tx_replies: &Vec<TransactionReply>,
        package_replies: &Vec<ObjectsReply>,
    ) -> (r: Step<Result<(), LocalExecError>>)
        requires
            first_checkpoint_txs matches Some(Ok(txs)) ==> old(self).on_network(txs@).can_fill(
                *events_reply,
                tx_replies@,
                package_replies@,
            ),
        ensures
            reset_step(
                old(self),
                *first_checkpoint_txs,
                *events_reply,
                tx_replies@,
                package_replies@,
                final(self),
                r,
            ),
    {
        match first_checkpoint_txs {
            None => Step::Ask(Request::CheckpointTransactions(0)),
            Some(Err(err)) => Step::Done(Err(err.clone())),
            Some(Ok(txs)) => {
                self.begin_anew(txs);
                let ghost fresh = *self;
                assert(is_new_session(Ok(*txs), old(self).params, Ok(fresh)));
                let r = self.init_for_execution(events_reply, tx_replies, package_replies);
                assert(init_step(
                    &fresh,
                    *events_reply,
                    tx_replies@,
                    package_replies@,
                    self,
                    r,
                ));
                r
            },
        }
    }

    /// Captures the state of the network and fills the tables of protocol versions. First it is
    /// found out where each protocol version was in force, then which versions the packages
    /// of the system had. The replies are what the node answered so far.
    ///
    /// The tables go stale when the next epoch begins.
    pub fn init_for_execution(
        &mut self,
        events_reply: &Option<EventsReply>,
        tx_replies: &Vec<TransactionReply>,
        package_replies: &Vec<ObjectsReply>,
    ) -> (r: Step<Result<(), LocalExecError>>)
        requires
            old(self).can_fill(*events_reply, tx_replies@, package_replies@),
        ensures
            init_step(
                old(self),
                *events_reply,
                tx_replies@,
                package_replies@,
                final(self),
                r,
            ),
    {
        let ranges = match self.protocol_ver_to_epoch_map(events_reply, tx_replies) {
            Step::Ask(request) => {
                return Step::Ask(request);
            },
            Step::Done(Err(err)) => {
                return Step::Done(Err(err));
            },
            Step::Done(Ok(ranges)) => ranges,
        };
        let ghost known = ranges;
        proof {
            let events = (*events_reply)->0->Ok_0@;
            let history = self.version_history(leading_starts(events));
            assert(known@.dom().contains(history.end.version));
            assert(known@.dom().len() > 0);
        }
        self.protocol_version_epoch_table = ranges;
        assert(*self == with_ranges(old(self), known));
        match self.system_package_versions(package_replies) {
            Step::Ask(request) => Step::Ask(request),
            Step::Done(revisions) => {
                let result = self.populate_protocol_version_tables(revisions);
                Step::Done(result)
            },
        }
    }
}

/// A session that has been filled can replay: it has tables, and it knows the versions of the
/// packages of the system for each protocol version that was in force at some epoch.
pub proof fn law_filled_session_can_replay(
    before: &LocalExec,
    events: Vec<SuiEvent>,
    tx_replies: Seq<TransactionReply>,
    package_replies: Seq<ObjectsReply>,
    after: &LocalExec,
    epoch: u64,
    version: u64,
)
    requires
        init_step(
            before,
            Some(Ok(events)),
            tx_replies,
            package_replies,
            after,
            Step::Done(Ok(())),
        ),
    ensures
        after.has_tables(),
        LocalExec::is_version_at(after.protocol_version_epoch_table@, epoch, version)
            ==> after.protocol_version_system_package_table@.contains_key(version),
{
    let history = before.version_history(leading_starts(events@));
    let ranges = after.protocol_version_epoch_table@;
    assert(ranges.dom().contains(history.end.version));
}

/// The tables are filled in three steps. First the history of the protocol versions is looked
/// up, and what that asks for is asked for, and its error is the error. Nothing has changed
/// until then.
pub proof fn law_filling_begins_with_the_history(
    before: &LocalExec,
    events_reply: Option<EventsReply>,
    tx_replies: Vec<TransactionReply>,
    package_replies: Vec<ObjectsReply>,
    history: Step<Result<BTreeMap<u64, ProtocolVersionSummary>, LocalExecError>>,
    after: &LocalExec,
    r: Step<Result<(), LocalExecError>>,
)
    requires
        before.can_fill(events_reply, tx_replies@, package_replies@),
        call_ensures(
            LocalExec::protocol_ver_to_epoch_map,
            (before, &events_reply, &tx_replies),
            history,
        ),
        exists|session: &mut LocalExec|
            *session == *before && *final(session) == *after && #[trigger] call_ensures(
                LocalExec::init_for_execution,
                (session, &events_reply, &tx_replies, &package_replies),
                r,
            ),
    ensures
        events_reply is None ==> r == Step::<Result<(), LocalExecError>>::Ask(
            Request::EpochChangeEvents { reverse: false },
        ) && *after == *before,
        history matches Step::Ask(request) ==> r == Step::<Result<(), LocalExecError>>::Ask(request)
            && *after == *before,
        history matches Step::Done(Err(err)) ==> r == Step::Done(Err::<(), _>(err)) && *after
            == *before,
        history matches Step::Done(Ok(ranges)) ==> after.protocol_version_epoch_table@ == ranges@
            && *after == (LocalExec {
            protocol_version_epoch_table: after.protocol_version_epoch_table,
            protocol_version_system_package_table: after.protocol_version_system_package_table,
            ..*before
        }),
{
}

/// Once the history is known, the versions of the packages are looked up for it, and what that asks
/// for is asked for, and its error is the error. Once they are known too, the table of each
/// protocol version of the history has each package whose revision came with that protocol
/// version at that revision, and every other package as the protocol version before has it.
pub proof fn law_filling_goes_on_with_the_packages(
    before: &LocalExec,
    events_reply: Option<EventsReply>,
    tx_replies: Vec<TransactionReply>,
    package_replies: Vec<ObjectsReply>,
    ranges: BTreeMap<u64, ProtocolVersionSummary>,
    found: Step<Result<Revisions, LocalExecError>>,
    after: &LocalExec,
    r: Step<Result<(), LocalExecError>>,
    version: u64,
    id: ObjectID,
    k: int,
)
    requires
        before.can_fill(events_reply, tx_replies@, package_replies@),
        call_ensures(
            LocalExec::protocol_ver_to_epoch_map,
            (before, &events_reply, &tx_replies),
            Step::Done(Ok(ranges)),
        ),
        call_ensures(
            LocalExec::system_package_versions,
            (
                &(LocalExec { protocol_version_epoch_table: ranges, ..*before }),
                &package_replies,
            ),
            found,
        ),
        exists|session: &mut LocalExec|
            *session == *before && *final(session) == *after && #[trigger] call_ensures(
                LocalExec::init_for_execution,
                (session, &events_reply, &tx_replies, &package_replies),
                r,
            ),
    ensures
        found matches Step::Ask(Request::LatestObjects(ids)) ==> (r matches Step::Ask(
            Request::LatestObjects(asked),
        ) && asked@ == ids@),
        found matches Step::Ask(Request::VersionedObjects(keys)) ==> (r matches Step::Ask(
            Request::VersionedObjects(asked),
        ) && asked@ == keys@),
        found matches Step::Done(Err(err)) ==> r == Step::Done(Err::<(), _>(err)),
        !(found matches Step::Done(Ok(_))) ==> after.protocol_version_system_package_table
            == before.protocol_version_system_package_table,
        found matches Step::Done(Ok(revisions)) ==> (r matches Step::Done(Ok(_))) && (
        ranges@.contains_key(version) ==> fills_one(
            after.protocol_version_system_package_table@,
            ranges@[version].epoch_change_tx,
            revisions,
            version,
            id,
            k,
        )),
{
    lemma_filling(
        before,
        events_reply->0->Ok_0,
        tx_replies@,
        package_replies@,
        ranges,
        found,
        after,
        r,
        version,
        id,
        k,
    );
}

/// Whether a table has a package at the revision that came with a transaction, if one did, and else
/// as the table of the protocol version before has it.
pub open spec fn fills_one(
    tables: Map<u64, BTreeMap<ObjectID, SequenceNumber>>,
    tx: TransactionDigest,
    revisions: Revisions,
    version: u64,
    id: ObjectID,
    k: int,
) -> bool {
    let known = revisions@.contains_key(id);
    &&& tables.contains_key(version)
    &&& known && is_last_by(revisions@[id]@, tx, k) ==> tables[version]@.contains_pair(
        id,
        revisions@[id]@[k].0,
    )
    &&& (!known || brings_none(revisions@[id]@, tx)) ==> if tables.contains_key(
        (version - 1) as u64,
    ) {
        tables[version]@.get(id) == tables[(version - 1) as u64]@.get(id)
    } else {
        tables[version]@.get(id) is None
    }
}

proof fn lemma_filling(
    before: &LocalExec,
    events: Vec<SuiEvent>,
    tx_replies: Seq<TransactionReply>,
    package_replies: Seq<ObjectsReply>,
    ranges: BTreeMap<u64, ProtocolVersionSummary>,
    found: Step<Result<Revisions, LocalExecError>>,
    after: &LocalExec,
    r: Step<Result<(), LocalExecError>>,
    version: u64,
    id: ObjectID,
    k: int,
)
    requires
        before.can_fill(Some(Ok(events)), tx_replies, package_replies),
        before.history_step(Some(Ok(events)), tx_replies, Step::Done(Ok(ranges))),
        with_ranges(before, ranges).revisions_step(package_replies, found),
        init_step(before, Some(Ok(events)), tx_replies, package_replies, after, r),
    ensures
        found matches Step::Ask(Request::LatestObjects(ids)) ==> (r matches Step::Ask(
            Request::LatestObjects(asked),
        ) && asked@ == ids@),
        found matches Step::Ask(Request::VersionedObjects(keys)) ==> (r matches Step::Ask(
            Request::VersionedObjects(asked),
        ) && asked@ == keys@),
        found matches Step::Done(Err(err)) ==> r == Step::Done(Err::<(), _>(err)),
        !(found matches Step::Done(Ok(_))) ==> after.protocol_version_system_package_table
            == before.protocol_version_system_package_table,
        found matches Step::Done(Ok(revisions)) ==> (r matches Step::Done(Ok(_))) && (
        ranges@.contains_key(version) ==> fills_one(
            after.protocol_version_system_package_table@,
            ranges@[version].epoch_change_tx,
            revisions,
            version,
            id,
            k,
        )),
{
    let history = choose|history: Step<
        Result<BTreeMap<u64, ProtocolVersionSummary>, LocalExecError>,
    >|
        {
            &&& #[trigger] before.history_step(Some(Ok(events)), tx_replies, history)
            &&& match history {
                Step::Ask(request) => *after == *before && r == Step::<
                    Result<(), LocalExecError>,
                >::Ask(request),
                Step::Done(Err(err)) => *after == *before && r == Step::Done(Err::<(), _>(err)),
                Step::Done(Ok(ranges)) => init_with_ranges(
                    before,
                    ranges,
                    package_replies,
                    after,
                    r,
                ),
            }
        };
    let known = history->Done_0->Ok_0;
    assert(known@ == ranges@);
    let gotten = choose|gotten: Step<Result<Revisions, LocalExecError>>|
        {
            &&& #[trigger] with_ranges(before, known).revisions_step(package_replies, gotten)
            &&& match gotten {
                Step::Ask(request) => *after == with_ranges(before, known) && r == Step::<
                    Result<(), LocalExecError>,
                >::Ask(request),
                Step::Done(revisions) => r matches Step::Done(result) && fills_tables(
                    &with_ranges(before, known),
                    revisions,
                    after,
                    result,
                ),
            }
        };
    if let Step::Done(Ok(revisions)) = found {
        assert(gotten matches Step::Done(Ok(_)));
        let used = gotten->Done_0->Ok_0;
        assert(revisions_view(used@) == revisions_view(revisions@));
        lemma_same_revisions(used, revisions, id);
        if ranges@.contains_key(version) {
            assert(is_last_round(package_replies));
            assert(!ranges@.contains_key(0));
            lemma_filled_tables(&with_ranges(before, known), used, after, version, id, k);
            let tables = after.protocol_version_system_package_table@;
            let tx = ranges@[version].epoch_change_tx;
            assert(fills_one(tables, tx, used, version, id, k));
            assert(fills_one(tables, tx, revisions, version, id, k));
        }
    }
}

proof fn lemma_same_revisions(a: Revisions, b: Revisions, id: ObjectID)
    requires
        revisions_view(a@) == revisions_view(b@),
    ensures
        a@.contains_key(id) == b@.contains_key(id),
        a@.contains_key(id) ==> a@[id]@ == b@[id]@,
{
    assert(revisions_view(a@).contains_key(id) == a@.contains_key(id));
    assert(revisions_view(b@).contains_key(id) == b@.contains_key(id));
    if a@.contains_key(id) {
        assert(revisions_view(a@)[id] == a@[id]@);
        assert(revisions_view(b@)[id] == b@[id]@);
    }
}

/// Beginning anew asks for the first checkpoint, and its error is the error. Nothing has changed
/// until then. With the transactions of the first checkpoint the session becomes what a new
/// session on the same network is, whatever it was, and is filled as such.
pub proof fn law_beginning_anew_is_beginning(
    before: &LocalExec,
    first_checkpoint_txs: Option<TransactionsReply>,
    events_reply: Option<EventsReply>,
    tx_replies: Vec<TransactionReply>,
    package_replies: Vec<ObjectsReply>,
    fresh: &LocalExec,
    history: Step<Result<BTreeMap<u64, ProtocolVersionSummary>, LocalExecError>>,
    after: &LocalExec,
    r: Step<Result<(), LocalExecError>>,
)
    requires
        first_checkpoint_txs matches Some(Ok(txs)) ==> {
            &&& call_ensures(LocalExec::new, (Ok(txs), before.params), Ok(*fresh))
            &&& fresh.can_fill(events_reply, tx_replies@, package_replies@)
            &&& call_ensures(
                LocalExec::protocol_ver_to_epoch_map,
                (fresh, &events_reply, &tx_replies),
                history,
            )
        },
        exists|session: &mut LocalExec|
            *session == *before && *final(session) == *after && #[trigger] call_ensures(
                LocalExec::reset_for_new_execution,
                (session, &first_checkpoint_txs, &events_reply, &tx_replies, &package_replies),
                r,
            ),
    ensures
        first_checkpoint_txs is None ==> r == Step::<Result<(), LocalExecError>>::Ask(
            Request::CheckpointTransactions(0),
        ) && *after == *before,
        first_checkpoint_txs matches Some(Err(err)) ==> r == Step::Done(Err::<(), _>(err))
            && *after == *before,
        first_checkpoint_txs matches Some(Ok(txs)) ==> {
            &&& after.params == before.params
            &&& after.is_testnet == txs@.contains(before.params.testnet_genesis_tx)
            &&& after.genesis_tx == fresh.genesis_tx
            &&& after.current_protocol_version == 0
            &&& after.exec_store_events@.len() == 0
            &&& after.storage@.live == Map::<ObjectID, Object>::empty()
            &&& after.storage@.packages == Map::<ObjectID, Object>::empty()
            &&& after.storage@.versions == Map::<(ObjectID, SequenceNumber), Object>::empty()
            &&& match history {
                Step::Ask(request) => {
                    &&& r == Step::<Result<(), LocalExecError>>::Ask(request)
                    &&& after.protocol_version_epoch_table@ == Map::<
                        u64,
                        ProtocolVersionSummary,
                    >::empty()
                },
                Step::Done(Err(err)) => {
                    &&& r == Step::Done(Err::<(), _>(err))
                    &&& after.protocol_version_epoch_table@ == Map::<
                        u64,
                        ProtocolVersionSummary,
                    >::empty()
                },
                Step::Done(Ok(ranges)) => after.protocol_version_epoch_table@ == ranges@,
            }
        },
{
    if let Some(Ok(txs)) = first_checkpoint_txs {
        let network = before.on_network(txs@);
        lemma_same_network(&network, fresh, events_reply, tx_replies@, package_replies@);
        assert(network.can_fill(events_reply, tx_replies@, package_replies@));
        let begun = choose|begun: LocalExec|
            {
                &&& #[trigger] is_new_session(Ok(txs), before.params, Ok(begun))
                &&& init_step(
                    &begun,
                    events_reply,
                    tx_replies@,
                    package_replies@,
                    after,
                    r,
                )
            };
        lemma_same_network(&begun, fresh, events_reply, tx_replies@, package_replies@);
        assert(begun.history_step(events_reply, tx_replies@, history));
    }
}

/// A session that begins anew goes on with the packages as a new session does.
pub proof fn law_beginning_anew_goes_on_with_the_packages(
    before: &LocalExec,
    txs: Vec<TransactionDigest>,
    events_reply: Option<EventsReply>,
    tx_replies: Vec<TransactionReply>,
    package_replies: Vec<ObjectsReply>,
    fresh: &LocalExec,
    ranges: BTreeMap<u64, ProtocolVersionSummary>,
    found: Step<Result<Revisions, LocalExecError>>,
    after: &LocalExec,
    r: Step<Result<(), LocalExecError>>,
    version: u64,
    id: ObjectID,
    k: int,
)
    requires
        call_ensures(LocalExec::new, (Ok(txs), before.params), Ok(*fresh)),
        fresh.can_fill(events_reply, tx_replies@, package_replies@),
        call_ensures(
            LocalExec::protocol_ver_to_epoch_map,
            (fresh, &events_reply, &tx_replies),
            Step::Done(Ok(ranges)),
        ),
        call_ensures(
            LocalExec::system_package_versions,
            (&(LocalExec { protocol_version_epoch_table: ranges, ..*fresh }), &package_replies),
            found,
        ),
        exists|session: &mut LocalExec|
            *session == *before && *final(session) == *after && #[trigger] call_ensures(
                LocalExec::reset_for_new_execution,
                (session, &Some(Ok(txs)), &events_reply, &tx_replies, &package_replies),
                r,
            ),
    ensures
        found matches Step::Ask(Request::LatestObjects(ids)) ==> (r matches Step::Ask(
            Request::LatestObjects(asked),
        ) && asked@ == ids@),
        found matches Step::Ask(Request::VersionedObjects(keys)) ==> (r matches Step::Ask(
            Request::VersionedObjects(asked),
        ) && asked@ == keys@),
        found matches Step::Done(Err(err)) ==> r == Step::Done(Err::<(), _>(err)),
        found matches Step::Done(Ok(revisions)) ==> (r matches Step::Done(Ok(_))) && (
        ranges@.contains_key(version) ==> fills_one(
            after.protocol_version_system_package_table@,
            ranges@[version].epoch_change_tx,
            revisions,
            version,
            id,
            k,
        )),
{
    let network = before.on_network(txs@);
    lemma_same_network(&network, fresh, events_reply, tx_replies@, package_replies@);
    assert(network.can_fill(events_reply, tx_replies@, package_replies@));
    let begun = choose|begun: LocalExec|
        {
            &&& #[trigger] is_new_session(Ok(txs), before.params, Ok(begun))
            &&& init_step(&begun, events_reply, tx_replies@, package_replies@, after, r)
        };
    lemma_same_network(&begun, fresh, events_reply, tx_replies@, package_replies@);
    assert(begun.history_step(events_reply, tx_replies@, Step::Done(Ok(ranges))));
    assert(with_ranges(&begun, ranges).revisions_step(package_replies@, found));
    lemma_filling(
        &begun,
        events_reply->0->Ok_0,
        tx_replies@,
        package_replies@,
        ranges,
        found,
        after,
        r,
        version,
        id,
        k,
    );
}

proof fn lemma_same_network(
    a: &LocalExec,
    b: &LocalExec,
    events_reply: Option<EventsReply>,
    tx_replies: Seq<TransactionReply>,
    package_replies: Seq<ObjectsReply>,
)
    requires
        a.is_testnet == b.is_testnet,
        a.genesis_tx == b.genesis_tx,
        a.params == b.params,
    ensures
        a.can_fill(events_reply, tx_replies, package_replies) == b.can_fill(
            events_reply,
            tx_replies,
            package_replies,
        ),
        forall|r: Step<Result<BTreeMap<u64, ProtocolVersionSummary>, LocalExecError>>| #[trigger]
            a.history_step(events_reply, tx_replies, r) == b.history_step(
                events_reply,
                tx_replies,
                r,
            ),
{
    assert(a.initial_boundaries() =~= b.initial_boundaries());
    assert forall|starts: Seq<EpochStart>| #[trigger]
        a.version_history(starts) == b.version_history(starts) by {}
}

} // verus!
