//! Where an epoch begins and ends, and what held at its start.
use crate::error::LocalExecError;
use crate::event::{
    all_say, find_epoch_start, is_first_start, is_searchable, json_members, lemma_all_say,
    lemma_says, lemma_search, says, search_comes_to, search_comes_to_nothing, searchable,
    EventsReply, SuiEvent,
};
use crate::local_exec::LocalExec;
use crate::protocol::{TransactionReply, SAFE_MODE_EPOCH};
use crate::request::{copied, Request, RequestView, Step};
use crate::types::{
    InputObjectKind, OnChainTransactionInfo, TransactionDigest, TransactionKind, TransactionRecord,
};
use vstd::prelude::*;

verus! {

/// The place of the event that starts an epoch. Epoch 0 has none; the search for
/// its end begins behind the second event.
pub open spec fn start_index(events: Seq<SuiEvent>, epoch: u64) -> Option<int> {
    if epoch == 0 {
        Some(1)
    } else if exists|i: int| is_first_start(events, epoch, i) {
        Some(choose|i: int| is_first_start(events, epoch, i))
    } else {
        None
    }
}

proof fn lemma_first_start_is_unique(events: Seq<SuiEvent>, epoch: u64, i: int, k: int)
    requires
        is_first_start(events, epoch, i),
        is_first_start(events, epoch, k),
    ensures
        i == k,
{
    if k < i {
        assert(!events[k].starts_epoch(epoch));
    } else if i < k {
        assert(!events[i].starts_epoch(epoch));
    }
}

proof fn lemma_start_index(events: Seq<SuiEvent>, epoch: u64, i: int)
    requires
        epoch != 0,
        is_first_start(events, epoch, i),
    ensures
        start_index(events, epoch) == Some(i),
{
    let k = choose|k: int| is_first_start(events, epoch, k);
    lemma_first_start_is_unique(events, epoch, i, k);
}

/// On the test network nothing is known of the epochs between these. No
/// transaction of a user was executed in them.
pub open spec fn is_unrecorded(is_testnet: bool, epoch: u64) -> bool {
    is_testnet && 2 < epoch < SAFE_MODE_EPOCH
}

/// The transactions that the node reported are in a checkpoint.
pub open spec fn has_checkpoint(reply: Option<TransactionReply>) -> bool {
    reply matches Some(Ok(record)) ==> record.checkpoint is Some
}

impl LocalExec {
    /// What is known of the checkpoints of an epoch from the replies so far.
    pub open spec fn checkpoints_step(
        &self,
        epoch: u64,
        events_reply: Option<EventsReply>,
        start_reply: Option<TransactionReply>,
        next_reply: Option<TransactionReply>,
        r: Step<Result<(u64, u64), LocalExecError>>,
    ) -> bool {
        match events_reply {
            None => r.asks(RequestView::EpochChangeEvents { reverse: true }),
            Some(Err(err)) => r == Step::Done(Err::<(u64, u64), _>(err)),
            Some(Ok(events)) => match start_index(events@, epoch) {
                None => r == Step::Done(
                    Err::<(u64, u64), _>(LocalExecError::EventNotFound { epoch }),
                ),
                Some(i) => if epoch != 0 && start_reply is None {
                    r.asks(RequestView::Transaction(events@[i].tx_digest))
                } else if epoch != 0 && start_reply->0 is Err {
                    r == Step::Done(Err::<(u64, u64), _>(start_reply->0->Err_0))
                } else if i + 1 >= events@.len() {
                    r == Step::Done(
                        Err::<(u64, u64), _>(
                            LocalExecError::UnableToDetermineCheckpoint { epoch },
                        ),
                    )
                } else {
                    match next_reply {
                        None => r.asks(RequestView::Transaction(events@[i + 1].tx_digest)),
                        Some(Err(err)) => r == Step::Done(Err::<(u64, u64), _>(err)),
                        Some(Ok(record)) => r == Step::Done(
                            Ok::<_, LocalExecError>(
                                (
                                    if epoch == 0 {
                                        0
                                    } else {
                                        start_reply->0->Ok_0.checkpoint->0
                                    },
                                    (record.checkpoint->0 - 1) as u64,
                                ),
                            ),
                        ),
                    }
                },
            },
        }
    }

    /// The first and the last checkpoint of an epoch: the checkpoint of the
    /// transaction that the event of the epoch belongs to, and the one before that of
    /// the transaction of the next event in the list. Epoch 0 begins with checkpoint 0.
    ///
    /// The events are asked for first, newest first, then the two transactions. In a list
    /// with the newest event first, the next event is the one of the epoch before, and the
    /// second checkpoint then ends that epoch. The replies are what the node answered so far.
    pub fn checkpoints_for_epoch(
        &self,
        epoch_id: u64,
        events_reply: &Option<EventsReply>,
        start_reply: &Option<TransactionReply>,
        next_reply: &Option<TransactionReply>,
    ) -> (r: Step<Result<(u64, u64), LocalExecError>>)
        requires
            epoch_id != 0 ==> (events_reply matches Some(Ok(events)) ==> searchable(
                events@,
                epoch_id,
            )),
            has_checkpoint(*start_reply),
            has_checkpoint(*next_reply),
            next_reply matches Some(Ok(record)) ==> record.checkpoint->0 > 0,
        ensures
            self.checkpoints_step(epoch_id, *events_reply, *start_reply, *next_reply, r),
    {
        let events = match events_reply {
            None => {
                return Step::Ask(Request::EpochChangeEvents { reverse: true });
            },
            Some(Err(err)) => {
                return Step::Done(Err(err.clone()));
            },
            Some(Ok(events)) => events,
        };
        let mut start_checkpoint: u64 = 0;
        let mut index: usize = 1;
        if epoch_id != 0 {
            index = match find_epoch_start(events, epoch_id) {
                Some(i) => i,
                None => {
                    assert(forall|i: int| !is_first_start(events@, epoch_id, i));
                    return Step::Done(Err(LocalExecError::EventNotFound { epoch: epoch_id }));
                },
            };
            proof {
                lemma_start_index(events@, epoch_id, index as int);
            }
            match start_reply {
                None => {
                    return Step::Ask(Request::Transaction(events[index].tx_digest));
                },
                Some(Err(err)) => {
                    return Step::Done(Err(err.clone()));
                },
                Some(Ok(record)) => {
                    start_checkpoint = record.checkpoint.unwrap();
                },
            }
        }
        if events.len() < 2 || index >= events.len() - 1 {
            return Step::Done(
                Err(LocalExecError::UnableToDetermineCheckpoint { epoch: epoch_id }),
            );
        }
        match next_reply {
            None => Step::Ask(Request::Transaction(events[index + 1].tx_digest)),
            Some(Err(err)) => Step::Done(Err(err.clone())),
            Some(Ok(record)) => Step::Done(
                Ok((start_checkpoint, record.checkpoint.unwrap() - 1)),
            ),
        }
    }

    /// Whether the event that starts an epoch can be found and has a reference gas price.
    pub open spec fn has_gas_price(&self, epoch: u64, reply: Option<EventsReply>) -> bool {
        !is_unrecorded(self.is_testnet, epoch) ==> (reply matches Some(Ok(events)) ==> searchable(
            events@,
            epoch,
        ) && forall|i: int| #[trigger]
            is_first_start(events@, epoch, i) ==> events@[i].number("reference_gas_price"@) is Some)
    }

    /// Whether the event that starts an epoch can be found and has a reference gas price.
    pub fn is_gas_price_readable(&self, epoch: u64, reply: &Option<EventsReply>) -> (r: bool)
        ensures
            r == self.has_gas_price(epoch, *reply),
    {
        if self.is_testnet && 2 < epoch && epoch < SAFE_MODE_EPOCH {
            return true;
        }
        match reply {
            Some(Ok(events)) => {
                if !is_searchable(events, epoch) {
                    return false;
                }
                match find_epoch_start(events, epoch) {
                    Some(index) => {
                        assert forall|i: int| #[trigger]
                            is_first_start(events@, epoch, i) implies i == index by {
                            lemma_first_start_is_unique(events@, epoch, i, index as int);
                        }
                        events[index].number_of("reference_gas_price").is_some()
                    },
                    None => true,
                }
            },
            _ => true,
        }
    }

    /// What is known of the start of an epoch from the replies so far.
    pub open spec fn epoch_start_step(
        &self,
        epoch: u64,
        events_reply: Option<EventsReply>,
        tx_reply: Option<TransactionReply>,
        r: Step<Result<(u64, u64), LocalExecError>>,
    ) -> bool {
        if is_unrecorded(self.is_testnet, epoch) {
            r == Step::Done(Ok::<_, LocalExecError>((0u64, 1u64)))
        } else {
            match events_reply {
                None => r.asks(RequestView::EpochChangeEvents { reverse: true }),
                Some(Err(err)) => r == Step::Done(Err::<(u64, u64), _>(err)),
                Some(Ok(events)) => {
                    &&& (forall|i: int| !(#[trigger] is_first_start(events@, epoch, i))) ==> r
                        == Step::Done(Err::<(u64, u64), _>(LocalExecError::EventNotFound { epoch }))
                    &&& forall|i: int| #[trigger]
                        is_first_start(events@, epoch, i) ==> match tx_reply {
                            None => r.asks(RequestView::Transaction(events@[i].tx_digest)),
                            Some(Err(err)) => r == Step::Done(Err::<(u64, u64), _>(err)),
                            Some(Ok(record)) => r == Step::Done(
                                match *record.kind {
                                    TransactionKind::ChangeEpoch { epoch_start_timestamp_ms, .. } => Ok(
                                        (
                                            epoch_start_timestamp_ms,
                                            events@[i].number("reference_gas_price"@)->0,
                                        ),
                                    ),
                                    TransactionKind::Other { .. } => Err(
                                        LocalExecError::InvalidEpochChangeTx { epoch },
                                    ),
                                },
                            ),
                        }
                },
            }
        }
    }

    /// When an epoch started, in milliseconds, and its reference gas price. The
    /// events are asked for first, newest first, then the transaction that started the
    /// epoch. The replies are what the node answered so far.
    ///
    /// For the epochs of the test network of which nothing is known, the result is
    /// made up, and nothing is asked.
    pub fn get_epoch_start_timestamp_and_rgp(
        &self,
        epoch_id: u64,
        events_reply: &Option<EventsReply>,
        tx_reply: &Option<TransactionReply>,
    ) -> (r: Step<Result<(u64, u64), LocalExecError>>)
        requires
            self.has_gas_price(epoch_id, *events_reply),
        ensures
            self.epoch_start_step(epoch_id, *events_reply, *tx_reply, r),
    {
        if self.is_testnet && 2 < epoch_id && epoch_id < SAFE_MODE_EPOCH {
            return Step::Done(Ok((0, 1)));
        }
        let events = match events_reply {
            None => {
                return Step::Ask(Request::EpochChangeEvents { reverse: true });
            },
            Some(Err(err)) => {
                return Step::Done(Err(err.clone()));
            },
            Some(Ok(events)) => events,
        };
        let index: usize = match find_epoch_start(events, epoch_id) {
            Some(i) => i,
            None => {
                return Step::Done(Err(LocalExecError::EventNotFound { epoch: epoch_id }));
            },
        };
        assert forall|i: int| #[trigger] is_first_start(events@, epoch_id, i) implies i == index by {
            lemma_first_start_is_unique(events@, epoch_id, i, index as int);
        }
        let reference_gas_price: u64 = events[index].number_of("reference_gas_price").unwrap();
        match tx_reply {
            None => Step::Ask(Request::Transaction(events[index].tx_digest)),
            Some(Err(err)) => Step::Done(Err(err.clone())),
            Some(Ok(record)) => match &*record.kind {
                TransactionKind::ChangeEpoch { epoch_start_timestamp_ms, .. } => Step::Done(
                    Ok((*epoch_start_timestamp_ms, reference_gas_price)),
                ),
                TransactionKind::Other { .. } => Step::Done(
                    Err(LocalExecError::InvalidEpochChangeTx { epoch: epoch_id }),
                ),
            },
        }
    }

    /// Whether the record of a transaction, together with what is known of its
    /// epoch, makes up all that is known of the transaction.
    pub open spec fn is_info_of(
        info: OnChainTransactionInfo,
        tx_digest: TransactionDigest,
        record: TransactionRecord,
        epoch_start: (u64, u64),
        protocol_version: u64,
    ) -> bool {
        &&& info.tx_digest == tx_digest
        &&& info.raw_transaction == record.raw_transaction
        &&& info.sender == record.sender
        &&& record.input_objects matches Ok(inputs) && info.input_objects@ == inputs@
        &&& info.kind == record.kind
        &&& info.modified_at_versions@ == record.effects.modified_at_versions@
        &&& info.shared_object_refs@ == record.effects.shared_objects@
        &&& info.gas@ == record.gas_data.payment@
        &&& info.gas_budget == record.gas_data.budget
        &&& info.gas_price == record.gas_data.price
        &&& info.executed_epoch == record.effects.executed_epoch
        &&& info.dependencies@ == record.effects.dependencies@
        &&& info.effects == record.effects
        &&& info.protocol_version == protocol_version
        &&& info.epoch_start_timestamp == epoch_start.0
        &&& info.reference_gas_price == epoch_start.1
    }

    /// What is known of a transaction from the replies so far.
    pub open spec fn resolve_step(
        &self,
        tx_digest: TransactionDigest,
        tx_reply: Option<TransactionReply>,
        events_reply: Option<EventsReply>,
        epoch_tx_reply: Option<TransactionReply>,
        r: Step<Result<OnChainTransactionInfo, LocalExecError>>,
    ) -> bool {
        match tx_reply {
            None => r.asks(RequestView::Transaction(tx_digest)),
            Some(Err(err)) => r == Step::Done(Err::<OnChainTransactionInfo, _>(err)),
            Some(Ok(record)) => match record.input_objects {
                Err(err) => r == Step::Done(
                    Err::<OnChainTransactionInfo, _>(LocalExecError::UserInputError { err }),
                ),
                Ok(_) => exists|start: Step<Result<(u64, u64), LocalExecError>>| #[trigger]
                    self.epoch_start_step(
                        record.effects.executed_epoch,
                        events_reply,
                        epoch_tx_reply,
                        start,
                    ) && match start {
                        Step::Ask(request) => r == Step::<
                            Result<OnChainTransactionInfo, LocalExecError>,
                        >::Ask(request),
                        Step::Done(Err(err)) => r == Step::Done(
                            Err::<OnChainTransactionInfo, _>(err),
                        ),
                        Step::Done(Ok(epoch_start)) => self.resolves_to(
                            tx_digest,
                            record,
                            epoch_start,
                            r,
                        ),
                    },
            },
        }
    }

    /// All that is known of a transaction. The transaction is asked for first, then
    /// what `get_epoch_start_timestamp_and_rgp` asks for the epoch that it was
    /// executed in. The replies are what the node answered so far.
    pub fn resolve_tx_components(
        &self,
        tx_digest: &TransactionDigest,
        tx_reply: &Option<TransactionReply>,
        events_reply: &Option<EventsReply>,
        epoch_tx_reply: &Option<TransactionReply>,
    ) -> (r: Step<Result<OnChainTransactionInfo, LocalExecError>>)
        requires
            tx_reply matches Some(Ok(record)) ==> record.input_objects is Ok ==> self.has_gas_price(
                record.effects.executed_epoch,
                *events_reply,
            ),
        ensures
            self.resolve_step(*tx_digest, *tx_reply, *events_reply, *epoch_tx_reply, r),
    {
        let record = match tx_reply {
            None => {
                return Step::Ask(Request::Transaction(*tx_digest));
            },
            Some(Err(err)) => {
                return Step::Done(Err(err.clone()));
            },
            Some(Ok(record)) => record,
        };
        let input_objects: Vec<InputObjectKind> = match &record.input_objects {
            Ok(inputs) => copied(inputs),
            Err(err) => {
                return Step::Done(Err(LocalExecError::UserInputError { err: err.clone() }));
            },
        };
        let epoch_id: u64 = record.effects.executed_epoch;
        let start = self.get_epoch_start_timestamp_and_rgp(epoch_id, events_reply, epoch_tx_reply);
        let ghost epoch_step = start;
        assert(self.epoch_start_step(epoch_id, *events_reply, *epoch_tx_reply, epoch_step));
        let (epoch_start_timestamp, reference_gas_price) = match start {
            Step::Ask(request) => {
                return Step::Ask(request);
            },
            Step::Done(Err(err)) => {
                return Step::Done(Err(err));
            },
            Step::Done(Ok(found)) => found,
        };
        let protocol_version: u64 = match self.get_protocol_config(epoch_id) {
            Ok(version) => version,
            Err(err) => {
                return Step::Done(Err(err));
            },
        };
        Step::Done(
            Ok(
                OnChainTransactionInfo {
                    tx_digest: *tx_digest,
                    raw_transaction: record.raw_transaction.clone(),
                    sender: record.sender,
                    input_objects,
                    kind: record.kind.clone(),
                    modified_at_versions: copied(&record.effects.modified_at_versions),
                    shared_object_refs: copied(&record.effects.shared_objects),
                    gas: copied(&record.gas_data.payment),
                    gas_budget: record.gas_data.budget,
                    gas_price: record.gas_data.price,
                    executed_epoch: epoch_id,
                    dependencies: copied(&record.effects.dependencies),
                    effects: record.effects.clone(),
                    protocol_version,
                    epoch_start_timestamp,
                    reference_gas_price,
                },
            ),
        )
    }

    /// What `resolve_tx_components` comes to, once the record of the transaction and
    /// the start of its epoch are known.
    pub open spec fn resolves_to(
        &self,
        tx_digest: TransactionDigest,
        record: TransactionRecord,
        epoch_start: (u64, u64),
        r: Step<Result<OnChainTransactionInfo, LocalExecError>>,
    ) -> bool {
        let epoch = record.effects.executed_epoch;
        match r {
            Step::Ask(_) => false,
            Step::Done(Ok(info)) => Self::is_version_at(
                self.protocol_version_epoch_table@,
                epoch,
                info.protocol_version,
            ) && Self::is_info_of(info, tx_digest, record, epoch_start, info.protocol_version),
            Step::Done(Err(err)) => err == (LocalExecError::ProtocolVersionNotFound { epoch }) && (
            forall|other: u64| #[trigger]
                self.protocol_version_epoch_table@.contains_key(other)
                    ==> self.protocol_version_epoch_table@[other].epoch_start > epoch),
        }
    }
}

/// Where the event of one epoch comes right behind that of another in the list, the second
/// checkpoint that is given for the other is right before the first checkpoint of the one. With
/// the newest event first, the one is the epoch before the other.
pub proof fn law_neighbours_in_the_list_meet(
    exec: &LocalExec,
    events: Vec<SuiEvent>,
    ahead: u64,
    behind: u64,
    ahead_start: Option<TransactionReply>,
    boundary: TransactionRecord,
    behind_next: Option<TransactionReply>,
    ahead_range: (u64, u64),
    behind_range: (u64, u64),
)
    requires
        behind != 0,
        start_index(events@, ahead) is Some,
        start_index(events@, behind) == Some(start_index(events@, ahead)->0 + 1),
        boundary.checkpoint is Some,
        boundary.checkpoint->0 > 0,
        exec.checkpoints_step(
            ahead,
            Some(Ok(events)),
            ahead_start,
            Some(Ok(boundary)),
            Step::Done(Ok(ahead_range)),
        ),
        exec.checkpoints_step(
            behind,
            Some(Ok(events)),
            Some(Ok(boundary)),
            behind_next,
            Step::Done(Ok(behind_range)),
        ),
    ensures
        ahead_range.1 + 1 == behind_range.0,
{
}

/// What is found of the start of an epoch depends on the answers of the node alone: two
/// searches with the same answers find the same.
pub proof fn law_epoch_start_is_determined(
    exec: &LocalExec,
    epoch: u64,
    events: EventsReply,
    tx_reply: Option<TransactionReply>,
    first: Result<(u64, u64), LocalExecError>,
    second: Result<(u64, u64), LocalExecError>,
)
    requires
        exec.epoch_start_step(epoch, Some(events), tx_reply, Step::Done(first)),
        exec.epoch_start_step(epoch, Some(events), tx_reply, Step::Done(second)),
    ensures
        first == second,
{
    if let Ok(found) = events {
        if exists|i: int| is_first_start(found@, epoch, i) {
            let i = choose|i: int| is_first_start(found@, epoch, i);
            assert(is_first_start(found@, epoch, i));
        }
    }
}

/// The first event that says that an epoch starts stands at a place.
pub open spec fn first_says(epochs: Seq<u64>, epoch: u64, i: int) -> bool {
    &&& 0 <= i < epochs.len()
    &&& epochs[i] == epoch
    &&& !epochs.take(i).contains(epoch)
}

proof fn lemma_first_says(
    events: Seq<SuiEvent>,
    epochs: Seq<u64>,
    versions: Seq<u64>,
    epoch: u64,
    i: int,
)
    requires
        all_say(events, epochs, versions),
    ensures
        searchable(events, epoch),
        is_first_start(events, epoch, i) <==> first_says(epochs, epoch, i),
        epochs.contains(epoch) ==> exists|k: int| #[trigger] is_first_start(events, epoch, k),
        !epochs.contains(epoch) ==> forall|k: int| !(#[trigger] is_first_start(events, epoch, k)),
{
    lemma_all_say(events, epochs, versions);
    if first_says(epochs, epoch, i) {
        assert forall|j: int| 0 <= j < i implies !(#[trigger] events[j]).starts_epoch(epoch) by {
            assert(epochs.take(i)[j] == epochs[j]);
        }
    }
    if is_first_start(events, epoch, i) && epochs.take(i).contains(epoch) {
        let j = epochs.take(i).index_of(epoch);
        assert(!events[j].starts_epoch(epoch));
    }
    if epochs.contains(epoch) {
        let j = epochs.index_of(epoch);
        let k = lemma_some_first_start(events, epoch, j);
        assert(is_first_start(events, epoch, k));
    } else {
        assert forall|k: int| !(#[trigger] is_first_start(events, epoch, k)) by {
            if is_first_start(events, epoch, k) {
                assert(events[k].starts_epoch(epoch));
                assert(epochs[k] == epoch);
            }
        }
    }
}

proof fn lemma_some_first_start(events: Seq<SuiEvent>, epoch: u64, j: int) -> (k: int)
    requires
        0 <= j < events.len(),
        events[j].starts_epoch(epoch),
    ensures
        is_first_start(events, epoch, k),
    decreases j,
{
    if exists|i: int| 0 <= i < j && (#[trigger] events[i]).starts_epoch(epoch) {
        let i = choose|i: int| 0 <= i < j && (#[trigger] events[i]).starts_epoch(epoch);
        lemma_some_first_start(events, epoch, i)
    } else {
        j
    }
}

/// The checkpoints of an epoch are looked up in the list of events: the event that says that
/// the epoch starts, and the one right behind it in the list. The transactions of both are asked
/// for, one after the other. The first checkpoint is that of the one transaction, the second
/// is right before that of the other. Where no event says that the epoch starts, or none
/// stands behind it, there is no answer.
pub proof fn law_checkpoints_are_those_of_two_neighbours(
    exec: &LocalExec,
    epoch: u64,
    events: Vec<SuiEvent>,
    epochs: Seq<u64>,
    versions: Seq<u64>,
    i: int,
    start: Option<TransactionReply>,
    next: Option<TransactionReply>,
    r: Step<Result<(u64, u64), LocalExecError>>,
)
    requires
        all_say(events@, epochs, versions),
        epoch != 0,
        start matches Some(Ok(record)) ==> record.checkpoint is Some,
        next matches Some(Ok(record)) ==> record.checkpoint matches Some(c) && c > 0,
        call_ensures(
            LocalExec::checkpoints_for_epoch,
            (exec, epoch, &Some(Ok::<_, LocalExecError>(events)), &start, &next),
            r,
        ),
    ensures
        !epochs.contains(epoch) ==> r == Step::Done(
            Err::<(u64, u64), _>(LocalExecError::EventNotFound { epoch }),
        ),
        first_says(epochs, epoch, i) ==> match start {
            None => r == Step::<Result<(u64, u64), LocalExecError>>::Ask(
                Request::Transaction(events@[i].tx_digest),
            ),
            Some(Err(err)) => r == Step::Done(Err::<(u64, u64), _>(err)),
            Some(Ok(first)) => if i + 1 == events@.len() {
                r == Step::Done(
                    Err::<(u64, u64), _>(LocalExecError::UnableToDetermineCheckpoint { epoch }),
                )
            } else {
                match next {
                    None => r == Step::<Result<(u64, u64), LocalExecError>>::Ask(
                        Request::Transaction(events@[i + 1].tx_digest),
                    ),
                    Some(Err(err)) => r == Step::Done(Err::<(u64, u64), _>(err)),
                    Some(Ok(second)) => r matches Step::Done(Ok(range)) && Some(range.0)
                        == first.checkpoint && range.1 + 1 == second.checkpoint->0,
                }
            }
        },
{
    lemma_first_says(events@, epochs, versions, epoch, i);
    if first_says(epochs, epoch, i) {
        lemma_start_index(events@, epoch, i);
    }
}

/// Over a whole run against a node that says in which checkpoint a transaction is, the checkpoints
/// of an epoch are that of the transaction of its event, and the one before that of the
/// transaction of the event right behind it in the list.
pub proof fn law_checkpoints_come_from_the_node(
    exec: &LocalExec,
    epoch: u64,
    events: Vec<SuiEvent>,
    epochs: Seq<u64>,
    versions: Seq<u64>,
    i: int,
    checkpoints: spec_fn(TransactionDigest) -> u64,
    first_asked: TransactionDigest,
    first: TransactionRecord,
    second_asked: TransactionDigest,
    second: TransactionRecord,
    r: Step<Result<(u64, u64), LocalExecError>>,
)
    requires
        all_say(events@, epochs, versions),
        epoch != 0,
        first_says(epochs, epoch, i),
        call_ensures(
            LocalExec::checkpoints_for_epoch,
            (
                exec,
                epoch,
                &Some(Ok::<_, LocalExecError>(events)),
                &None::<TransactionReply>,
                &None::<TransactionReply>,
            ),
            Step::Ask(Request::Transaction(first_asked)),
        ),
        first.checkpoint == Some(checkpoints(first_asked)),
        call_ensures(
            LocalExec::checkpoints_for_epoch,
            (
                exec,
                epoch,
                &Some(Ok::<_, LocalExecError>(events)),
                &Some(Ok::<_, LocalExecError>(first)),
                &None::<TransactionReply>,
            ),
            Step::Ask(Request::Transaction(second_asked)),
        ),
        second.checkpoint == Some(checkpoints(second_asked)),
        checkpoints(second_asked) > 0,
        call_ensures(
            LocalExec::checkpoints_for_epoch,
            (
                exec,
                epoch,
                &Some(Ok::<_, LocalExecError>(events)),
                &Some(Ok::<_, LocalExecError>(first)),
                &Some(Ok::<_, LocalExecError>(second)),
            ),
            r,
        ),
    ensures
        i + 1 < events@.len(),
        r matches Step::Done(Ok(range)) && range.0 == checkpoints(events@[i].tx_digest) && range.1
            + 1 == checkpoints(events@[i + 1].tx_digest),
{
    let one = Some(Ok::<_, LocalExecError>(first));
    let two = Some(Ok::<_, LocalExecError>(second));
    law_checkpoints_are_those_of_two_neighbours(
        exec,
        epoch,
        events,
        epochs,
        versions,
        i,
        None,
        None,
        Step::Ask(Request::Transaction(first_asked)),
    );
    law_checkpoints_are_those_of_two_neighbours(
        exec,
        epoch,
        events,
        epochs,
        versions,
        i,
        one,
        None,
        Step::Ask(Request::Transaction(second_asked)),
    );
    law_checkpoints_are_those_of_two_neighbours(
        exec,
        epoch,
        events,
        epochs,
        versions,
        i,
        one,
        two,
        r,
    );
}

/// Epoch 0 has no event: it begins with checkpoint 0, and the transaction of the third event
/// in the list is the only one that is asked for.
pub proof fn law_checkpoints_of_epoch_zero(
    exec: &LocalExec,
    events: Vec<SuiEvent>,
    start: Option<TransactionReply>,
    next: Option<TransactionReply>,
    r: Step<Result<(u64, u64), LocalExecError>>,
)
    requires
        start matches Some(Ok(record)) ==> record.checkpoint is Some,
        next matches Some(Ok(record)) ==> record.checkpoint matches Some(c) && c > 0,
        call_ensures(
            LocalExec::checkpoints_for_epoch,
            (exec, 0u64, &Some(Ok::<_, LocalExecError>(events)), &start, &next),
            r,
        ),
    ensures
        if events@.len() < 3 {
            r == Step::Done(
                Err::<(u64, u64), _>(LocalExecError::UnableToDetermineCheckpoint { epoch: 0 }),
            )
        } else {
            match next {
                None => r == Step::<Result<(u64, u64), LocalExecError>>::Ask(
                    Request::Transaction(events@[2].tx_digest),
                ),
                Some(Err(err)) => r == Step::Done(Err::<(u64, u64), _>(err)),
                Some(Ok(record)) => r matches Step::Done(Ok(range)) && range.0 == 0 && range.1 + 1
                    == record.checkpoint->0,
            }
        },
{
}

/// Before anything else, the events are asked for, with the newest first.
pub proof fn law_checkpoints_need_the_events(
    exec: &LocalExec,
    epoch: u64,
    events_reply: Option<EventsReply>,
    start: Option<TransactionReply>,
    next: Option<TransactionReply>,
    r: Step<Result<(u64, u64), LocalExecError>>,
)
    requires
        start matches Some(Ok(record)) ==> record.checkpoint is Some,
        next matches Some(Ok(record)) ==> record.checkpoint matches Some(c) && c > 0,
        !(events_reply matches Some(Ok(_))),
        call_ensures(
            LocalExec::checkpoints_for_epoch,
            (exec, epoch, &events_reply, &start, &next),
            r,
        ),
    ensures
        events_reply is None ==> r == Step::<Result<(u64, u64), LocalExecError>>::Ask(
            Request::EpochChangeEvents { reverse: true },
        ),
        events_reply matches Some(Err(err)) ==> r == Step::Done(Err::<(u64, u64), _>(err)),
{
}

/// Whether nothing is recorded of an epoch: on the test network, this is so from epoch 3 to
/// epoch 741.
pub open spec fn has_no_record(is_testnet: bool, epoch: u64) -> bool {
    is_testnet && 3 <= epoch <= 741
}

/// The start of an epoch is looked up in the first event of the list that says that the epoch
/// starts, whatever the other events say: the gas price is the one that this event
/// says, the transaction of this event is asked for, and the time is the one that this
/// transaction, which must be a change of epoch, holds.
pub proof fn law_an_epoch_start_is_what_its_event_says(
    exec: &LocalExec,
    epoch: u64,
    events: Vec<SuiEvent>,
    epochs: Seq<u64>,
    versions: Seq<u64>,
    i: int,
    gas_price: u64,
    tx: Option<TransactionReply>,
    r: Step<Result<(u64, u64), LocalExecError>>,
)
    requires
        all_say(events@, epochs, versions),
        !has_no_record(exec.is_testnet, epoch),
        first_says(epochs, epoch, i),
        says(events@[i], "reference_gas_price"@, gas_price),
        call_ensures(
            LocalExec::get_epoch_start_timestamp_and_rgp,
            (exec, epoch, &Some(Ok::<_, LocalExecError>(events)), &tx),
            r,
        ),
    ensures
        match tx {
            None => r == Step::<Result<(u64, u64), LocalExecError>>::Ask(
                Request::Transaction(events@[i].tx_digest),
            ),
            Some(Err(err)) => r == Step::Done(Err::<(u64, u64), _>(err)),
            Some(Ok(record)) => match *record.kind {
                TransactionKind::ChangeEpoch { epoch_start_timestamp_ms, .. } => r == Step::Done(
                    Ok::<_, LocalExecError>((epoch_start_timestamp_ms, gas_price)),
                ),
                TransactionKind::Other { .. } => r == Step::Done(
                    Err::<(u64, u64), _>(LocalExecError::InvalidEpochChangeTx { epoch }),
                ),
            },
        },
{
    lemma_gas_price_is_there(exec, epoch, events, epochs, versions, i, gas_price);
}

/// The start of an epoch does not depend on what the events of other epochs say: two lists of
/// events in which the same event is the first that says that the epoch starts give the same.
pub proof fn law_other_events_do_not_matter(
    exec: &LocalExec,
    epoch: u64,
    events: Vec<SuiEvent>,
    epochs: Seq<u64>,
    versions: Seq<u64>,
    i: int,
    other_events: Vec<SuiEvent>,
    other_epochs: Seq<u64>,
    other_versions: Seq<u64>,
    j: int,
    gas_price: u64,
    tx: Option<TransactionReply>,
    r: Step<Result<(u64, u64), LocalExecError>>,
    other_r: Step<Result<(u64, u64), LocalExecError>>,
)
    requires
        all_say(events@, epochs, versions),
        all_say(other_events@, other_epochs, other_versions),
        first_says(epochs, epoch, i),
        first_says(other_epochs, epoch, j),
        events@[i] == other_events@[j],
        says(events@[i], "reference_gas_price"@, gas_price),
        !has_no_record(exec.is_testnet, epoch),
        call_ensures(
            LocalExec::get_epoch_start_timestamp_and_rgp,
            (exec, epoch, &Some(Ok::<_, LocalExecError>(events)), &tx),
            r,
        ),
        call_ensures(
            LocalExec::get_epoch_start_timestamp_and_rgp,
            (exec, epoch, &Some(Ok::<_, LocalExecError>(other_events)), &tx),
            other_r,
        ),
    ensures
        r == other_r,
{
    law_an_epoch_start_is_what_its_event_says(
        exec,
        epoch,
        events,
        epochs,
        versions,
        i,
        gas_price,
        tx,
        r,
    );
    law_an_epoch_start_is_what_its_event_says(
        exec,
        epoch,
        other_events,
        other_epochs,
        other_versions,
        j,
        gas_price,
        tx,
        other_r,
    );
}

/// Where nothing is recorded of an epoch the answer is made up, and nothing is asked. Of any
/// other epoch the events are asked for first, with the newest first, and an epoch that none
/// of them starts is an error.
pub proof fn law_an_epoch_start_needs_an_event(
    exec: &LocalExec,
    epoch: u64,
    events_reply: Option<EventsReply>,
    epochs: Seq<u64>,
    versions: Seq<u64>,
    tx: Option<TransactionReply>,
    r: Step<Result<(u64, u64), LocalExecError>>,
)
    requires
        !has_no_record(exec.is_testnet, epoch) ==> (events_reply matches Some(Ok(events))
            ==> all_say(events@, epochs, versions) && !epochs.contains(epoch)),
        call_ensures(
            LocalExec::get_epoch_start_timestamp_and_rgp,
            (exec, epoch, &events_reply, &tx),
            r,
        ),
    ensures
        if has_no_record(exec.is_testnet, epoch) {
            r == Step::Done(Ok::<_, LocalExecError>((0u64, 1u64)))
        } else {
            match events_reply {
                None => r == Step::<Result<(u64, u64), LocalExecError>>::Ask(
                    Request::EpochChangeEvents { reverse: true },
                ),
                Some(Err(err)) => r == Step::Done(Err::<(u64, u64), _>(err)),
                Some(Ok(_)) => r == Step::Done(
                    Err::<(u64, u64), _>(LocalExecError::EventNotFound { epoch }),
                ),
            }
        },
{
    if !has_no_record(exec.is_testnet, epoch) {
        if let Some(Ok(events)) = events_reply {
            lemma_first_says(events@, epochs, versions, epoch, 0);
        }
    }
    assert(exec.has_gas_price(epoch, events_reply));
}

/// What is known of a transaction is what the node reports of it, field by field, with the
/// protocol version that the table gives for its epoch, with the time that the transaction
/// which started its epoch holds, and with the gas price that the event of that epoch says.
pub proof fn law_a_transaction_is_known_as_it_is_reported(
    exec: &LocalExec,
    tx_digest: &TransactionDigest,
    record: TransactionRecord,
    events: Vec<SuiEvent>,
    epochs: Seq<u64>,
    versions: Seq<u64>,
    i: int,
    epoch_record: TransactionRecord,
    time: u64,
    gas_price: u64,
    r: Step<Result<OnChainTransactionInfo, LocalExecError>>,
)
    requires
        record.input_objects is Ok,
        if has_no_record(exec.is_testnet, record.effects.executed_epoch) {
            time == 0 && gas_price == 1
        } else {
            &&& all_say(events@, epochs, versions)
            &&& first_says(epochs, record.effects.executed_epoch, i)
            &&& says(events@[i], "reference_gas_price"@, gas_price)
            &&& *epoch_record.kind matches TransactionKind::ChangeEpoch {
                epoch_start_timestamp_ms,
                ..
            } && epoch_start_timestamp_ms == time
        },
        call_ensures(
            LocalExec::resolve_tx_components,
            (
                exec,
                tx_digest,
                &Some(Ok::<_, LocalExecError>(record)),
                &Some(Ok::<_, LocalExecError>(events)),
                &Some(Ok::<_, LocalExecError>(epoch_record)),
            ),
            r,
        ),
    ensures
        match r {
            Step::Ask(_) => false,
            Step::Done(Ok(info)) => {
                let epoch = record.effects.executed_epoch;
                let table = exec.protocol_version_epoch_table@;
                &&& info.tx_digest == *tx_digest
                &&& info.raw_transaction == record.raw_transaction
                &&& info.sender == record.sender
                &&& info.input_objects@ == record.input_objects->Ok_0@
                &&& info.kind == record.kind
                &&& info.modified_at_versions@ == record.effects.modified_at_versions@
                &&& info.shared_object_refs@ == record.effects.shared_objects@
                &&& info.gas@ == record.gas_data.payment@
                &&& info.gas_budget == record.gas_data.budget
                &&& info.gas_price == record.gas_data.price
                &&& info.executed_epoch == epoch
                &&& info.dependencies@ == record.effects.dependencies@
                &&& info.effects == record.effects
                &&& info.epoch_start_timestamp == time
                &&& info.reference_gas_price == gas_price
                &&& table.contains_key(info.protocol_version)
                &&& table[info.protocol_version].epoch_start <= epoch
                &&& forall|other: u64| #[trigger]
                    table.contains_key(other) && table[other].epoch_start <= epoch ==> other
                        <= info.protocol_version
            },
            Step::Done(Err(err)) => {
                let epoch = record.effects.executed_epoch;
                let table = exec.protocol_version_epoch_table@;
                &&& err == LocalExecError::ProtocolVersionNotFound { epoch }
                &&& forall|other: u64| #[trigger]
                    table.contains_key(other) ==> table[other].epoch_start > epoch
            },
        },
{
    let epoch = record.effects.executed_epoch;
    let events_reply = Some(Ok::<_, LocalExecError>(events));
    if !has_no_record(exec.is_testnet, epoch) {
        lemma_gas_price_is_there(exec, epoch, events, epochs, versions, i, gas_price);
    }
    assert(exec.has_gas_price(epoch, events_reply));
    assert forall|start: Step<Result<(u64, u64), LocalExecError>>| #[trigger]
        exec.epoch_start_step(
            epoch,
            events_reply,
            Some(Ok::<_, LocalExecError>(epoch_record)),
            start,
        ) implies start == Step::Done(Ok::<_, LocalExecError>((time, gas_price))) by {
        if !has_no_record(exec.is_testnet, epoch) {
            assert(is_first_start(events@, epoch, i));
        }
    }
}

pub proof fn lemma_gas_price_is_there(
    exec: &LocalExec,
    epoch: u64,
    events: Vec<SuiEvent>,
    epochs: Seq<u64>,
    versions: Seq<u64>,
    i: int,
    gas_price: u64,
)
    requires
        all_say(events@, epochs, versions),
        first_says(epochs, epoch, i),
        says(events@[i], "reference_gas_price"@, gas_price),
    ensures
        is_first_start(events@, epoch, i),
        events@[i].number("reference_gas_price"@) == Some(gas_price),
        exec.has_gas_price(epoch, Some(Ok::<_, LocalExecError>(events))),
{
    lemma_first_says(events@, epochs, versions, epoch, i);
    lemma_says(events@[i], "reference_gas_price"@, gas_price);
    assert(is_first_start(events@, epoch, i));
    assert forall|k: int| #[trigger]
        is_first_start(events@, epoch, k) implies events@[k].number("reference_gas_price"@)
        is Some by {
        lemma_first_start_is_unique(events@, epoch, i, k);
    }
}

/// A transaction is looked up in this order: the transaction itself, the events with the newest
/// first, and the transaction of the first event that says that the epoch of the
/// transaction starts. Each is asked for as long as it is missing, and what the node
/// cannot answer, or inputs that cannot be read, end it.
pub proof fn law_a_transaction_is_looked_up_in_order(
    exec: &LocalExec,
    tx_digest: &TransactionDigest,
    tx: Option<TransactionReply>,
    events_reply: Option<EventsReply>,
    epochs: Seq<u64>,
    versions: Seq<u64>,
    i: int,
    gas_price: u64,
    epoch_tx: Option<TransactionReply>,
    r: Step<Result<OnChainTransactionInfo, LocalExecError>>,
)
    requires
        tx matches Some(Ok(record)) ==> !has_no_record(
            exec.is_testnet,
            record.effects.executed_epoch,
        ),
        tx matches Some(Ok(record)) ==> (events_reply matches Some(Ok(events)) ==> {
            &&& all_say(events@, epochs, versions)
            &&& first_says(epochs, record.effects.executed_epoch, i)
            &&& says(events@[i], "reference_gas_price"@, gas_price)
        }),
        call_ensures(
            LocalExec::resolve_tx_components,
            (exec, tx_digest, &tx, &events_reply, &epoch_tx),
            r,
        ),
    ensures
        match tx {
            None => r == Step::<Result<OnChainTransactionInfo, LocalExecError>>::Ask(
                Request::Transaction(*tx_digest),
            ),
            Some(Err(err)) => r == Step::Done(Err::<OnChainTransactionInfo, _>(err)),
            Some(Ok(record)) => match record.input_objects {
                Err(err) => r == Step::Done(
                    Err::<OnChainTransactionInfo, _>(LocalExecError::UserInputError { err }),
                ),
                Ok(_) => match events_reply {
                    None => r == Step::<Result<OnChainTransactionInfo, LocalExecError>>::Ask(
                        Request::EpochChangeEvents { reverse: true },
                    ),
                    Some(Err(err)) => r == Step::Done(Err::<OnChainTransactionInfo, _>(err)),
                    Some(Ok(events)) => match epoch_tx {
                        None => r == Step::<Result<OnChainTransactionInfo, LocalExecError>>::Ask(
                            Request::Transaction(events@[i].tx_digest),
                        ),
                        Some(Err(err)) => r == Step::Done(Err::<OnChainTransactionInfo, _>(err)),
                        Some(Ok(epoch_record)) => *epoch_record.kind is Other ==> r == Step::Done(
                            Err::<OnChainTransactionInfo, _>(
                                LocalExecError::InvalidEpochChangeTx {
                                    epoch: record.effects.executed_epoch,
                                },
                            ),
                        ),
                    },
                },
            },
        },
{
    if let Some(Ok(record)) = tx {
        if let Some(Ok(events)) = events_reply {
            lemma_gas_price_is_there(
                exec,
                record.effects.executed_epoch,
                events,
                epochs,
                versions,
                i,
                gas_price,
            );
        }
        assert(exec.has_gas_price(record.effects.executed_epoch, events_reply));
    }
}

/// The gas price of an epoch can be read if nothing is recorded of the epoch, if there are no
/// events yet, or if the event that starts the epoch says it. It cannot if that event lacks it.
pub proof fn law_readable_gas_prices_are_told(
    exec: &LocalExec,
    epoch: u64,
    reply: Option<EventsReply>,
    epochs: Seq<u64>,
    versions: Seq<u64>,
    i: int,
    gas_price: u64,
    r: bool,
)
    requires
        reply matches Some(Ok(events)) ==> all_say(events@, epochs, versions),
        call_ensures(LocalExec::is_gas_price_readable, (exec, epoch, &reply), r),
    ensures
        has_no_record(exec.is_testnet, epoch) || !(reply matches Some(Ok(_))) ==> r,
        reply matches Some(Ok(events)) ==> {
            &&& !epochs.contains(epoch) ==> r
            &&& first_says(epochs, epoch, i) && says(
                events@[i],
                "reference_gas_price"@,
                gas_price,
            ) ==> r
            &&& !has_no_record(exec.is_testnet, epoch) && first_says(epochs, epoch, i)
                && lacks_gas_price(events@[i]) ==> !r
        },
{
    if let Some(Ok(events)) = reply {
        lemma_first_says(events@, epochs, versions, epoch, i);
        if first_says(epochs, epoch, i) && says(events@[i], "reference_gas_price"@, gas_price) {
            lemma_gas_price_is_there(exec, epoch, events, epochs, versions, i, gas_price);
        }
    }
}

/// Whether an event has a payload without a reference gas price.
pub open spec fn lacks_gas_price(ev: SuiEvent) -> bool {
    json_members(*ev.parsed_json) matches Some(members) && !members.contains_key(
        "reference_gas_price"@,
    )
}

/// The checkpoints of an epoch depend on the event that the search for it comes to and on the
/// one right behind that, whatever the other events are.
pub proof fn law_checkpoints_are_those_that_the_search_comes_to(
    exec: &LocalExec,
    epoch: u64,
    events: Vec<SuiEvent>,
    i: int,
    start: Option<TransactionReply>,
    next: Option<TransactionReply>,
    r: Step<Result<(u64, u64), LocalExecError>>,
)
    requires
        search_comes_to(events@, epoch, i) || search_comes_to_nothing(events@, epoch),
        epoch != 0,
        start matches Some(Ok(record)) ==> record.checkpoint is Some,
        next matches Some(Ok(record)) ==> record.checkpoint matches Some(c) && c > 0,
        call_ensures(
            LocalExec::checkpoints_for_epoch,
            (exec, epoch, &Some(Ok::<_, LocalExecError>(events)), &start, &next),
            r,
        ),
    ensures
        search_comes_to_nothing(events@, epoch) ==> r == Step::Done(
            Err::<(u64, u64), _>(LocalExecError::EventNotFound { epoch }),
        ),
        search_comes_to(events@, epoch, i) ==> match start {
            None => r == Step::<Result<(u64, u64), LocalExecError>>::Ask(
                Request::Transaction(events@[i].tx_digest),
            ),
            Some(Err(err)) => r == Step::Done(Err::<(u64, u64), _>(err)),
            Some(Ok(first)) => if i + 1 == events@.len() {
                r == Step::Done(
                    Err::<(u64, u64), _>(LocalExecError::UnableToDetermineCheckpoint { epoch }),
                )
            } else {
                match next {
                    None => r == Step::<Result<(u64, u64), LocalExecError>>::Ask(
                        Request::Transaction(events@[i + 1].tx_digest),
                    ),
                    Some(Err(err)) => r == Step::Done(Err::<(u64, u64), _>(err)),
                    Some(Ok(second)) => r matches Step::Done(Ok(range)) && Some(range.0)
                        == first.checkpoint && range.1 + 1 == second.checkpoint->0,
                }
            }
        },
{
    lemma_search(events@, epoch, i);
    if search_comes_to(events@, epoch, i) {
        lemma_start_index(events@, epoch, i);
    }
    if search_comes_to_nothing(events@, epoch) {
        assert forall|k: int| !is_first_start(events@, epoch, k) by {}
    }
}

/// The start of an epoch depends on the event that the search for it comes to, whatever the other
/// events are: the gas price is the one that this event says, and its transaction, which must
/// be a change of epoch, holds the time.
pub proof fn law_an_epoch_start_is_what_the_search_comes_to(
    exec: &LocalExec,
    epoch: u64,
    events: Vec<SuiEvent>,
    i: int,
    gas_price: u64,
    tx: Option<TransactionReply>,
    r: Step<Result<(u64, u64), LocalExecError>>,
)
    requires
        search_comes_to(events@, epoch, i),
        says(events@[i], "reference_gas_price"@, gas_price),
        !has_no_record(exec.is_testnet, epoch),
        call_ensures(
            LocalExec::get_epoch_start_timestamp_and_rgp,
            (exec, epoch, &Some(Ok::<_, LocalExecError>(events)), &tx),
            r,
        ),
    ensures
        match tx {
            None => r == Step::<Result<(u64, u64), LocalExecError>>::Ask(
                Request::Transaction(events@[i].tx_digest),
            ),
            Some(Err(err)) => r == Step::Done(Err::<(u64, u64), _>(err)),
            Some(Ok(record)) => match *record.kind {
                TransactionKind::ChangeEpoch { epoch_start_timestamp_ms, .. } => r == Step::Done(
                    Ok::<_, LocalExecError>((epoch_start_timestamp_ms, gas_price)),
                ),
                TransactionKind::Other { .. } => r == Step::Done(
                    Err::<(u64, u64), _>(LocalExecError::InvalidEpochChangeTx { epoch }),
                ),
            },
        },
{
    let reply = Some(Ok::<_, LocalExecError>(events));
    assert(is_first_start(events@, epoch, i) && searchable(events@, epoch)) by {
        lemma_search(events@, epoch, i);
    }
    assert(events@[i].number("reference_gas_price"@) == Some(gas_price)) by {
        lemma_says(events@[i], "reference_gas_price"@, gas_price);
    }
    assert forall|k: int| #[trigger] is_first_start(events@, epoch, k) implies events@[k].number(
        "reference_gas_price"@,
    ) is Some by {
        lemma_first_start_is_unique(events@, epoch, i, k);
    }
    assert(exec.has_gas_price(epoch, reply));
    assert(exec.epoch_start_step(epoch, reply, tx, r));
}

/// Where the search for the start of an epoch comes to nothing there is no answer.
pub proof fn law_no_epoch_start_without_an_event(
    exec: &LocalExec,
    epoch: u64,
    events: Vec<SuiEvent>,
    tx: Option<TransactionReply>,
    r: Step<Result<(u64, u64), LocalExecError>>,
)
    requires
        search_comes_to_nothing(events@, epoch),
        !has_no_record(exec.is_testnet, epoch),
        call_ensures(
            LocalExec::get_epoch_start_timestamp_and_rgp,
            (exec, epoch, &Some(Ok::<_, LocalExecError>(events)), &tx),
            r,
        ),
    ensures
        r == Step::Done(Err::<(u64, u64), _>(LocalExecError::EventNotFound { epoch })),
{
    let reply = Some(Ok::<_, LocalExecError>(events));
    lemma_search(events@, epoch, 0);
    assert forall|k: int| !(#[trigger] is_first_start(events@, epoch, k)) by {}
    assert(exec.has_gas_price(epoch, reply));
    assert(exec.epoch_start_step(epoch, reply, tx, r));
}

/// A transaction is known with the start of the epoch that it was executed in: what the look-up
/// of that start asks for is asked for, its error is the error, and the time and the gas price
/// are those that it gives.
pub proof fn law_a_transaction_has_the_start_of_its_epoch(
    exec: &LocalExec,
    tx_digest: &TransactionDigest,
    record: TransactionRecord,
    events_reply: Option<EventsReply>,
    epoch_tx: Option<TransactionReply>,
    start: Step<Result<(u64, u64), LocalExecError>>,
    r: Step<Result<OnChainTransactionInfo, LocalExecError>>,
)
    requires
        record.input_objects is Ok,
        exec.has_gas_price(record.effects.executed_epoch, events_reply),
        call_ensures(
            LocalExec::get_epoch_start_timestamp_and_rgp,
            (exec, record.effects.executed_epoch, &events_reply, &epoch_tx),
            start,
        ),
        call_ensures(
            LocalExec::resolve_tx_components,
            (exec, tx_digest, &Some(Ok::<_, LocalExecError>(record)), &events_reply, &epoch_tx),
            r,
        ),
    ensures
        match start {
            Step::Ask(request) => r == Step::<Result<OnChainTransactionInfo, LocalExecError>>::Ask(
                request,
            ),
            Step::Done(Err(err)) => r == Step::Done(Err::<OnChainTransactionInfo, _>(err)),
            Step::Done(Ok((time, gas_price))) => match r {
                Step::Ask(_) => false,
                Step::Done(Ok(info)) => info.epoch_start_timestamp == time
                    && info.reference_gas_price == gas_price,
                Step::Done(Err(err)) => err == (LocalExecError::ProtocolVersionNotFound {
                    epoch: record.effects.executed_epoch,
                }),
            },
        },
{
    let epoch = record.effects.executed_epoch;
    let used = choose|used: Step<Result<(u64, u64), LocalExecError>>| #[trigger]
        exec.epoch_start_step(epoch, events_reply, epoch_tx, used) && match used {
            Step::Ask(request) => r == Step::<Result<OnChainTransactionInfo, LocalExecError>>::Ask(
                request,
            ),
            Step::Done(Err(err)) => r == Step::Done(Err::<OnChainTransactionInfo, _>(err)),
            Step::Done(Ok(epoch_start)) => exec.resolves_to(*tx_digest, record, epoch_start, r),
        };
    if let Some(Ok(events)) = events_reply {
        if exists|i: int| is_first_start(events@, epoch, i) {
            let i = choose|i: int| is_first_start(events@, epoch, i);
            assert(is_first_start(events@, epoch, i));
        }
    }
    assert(used == start);
}

} // verus!
