//! Which protocol version was in force when, read off the events that start epochs.
use crate::error::LocalExecError;
use crate::event::{
    all_say, extract_epoch_and_version, json_members, lemma_says, EventsReply, SuiEvent,
};
use crate::local_exec::{
    genesis_in, is_new_session, LocalExec, NetworkParams, ProtocolVersionSummary,
};
use crate::request::{Request, RequestView, Step};
use crate::types::{TransactionDigest, TransactionRecord};
use std::collections::BTreeMap;
use vstd::pervasive::unreached;
use vstd::prelude::*;

verus! {

broadcast use {
    vstd::std_specs::btree::group_btree_axioms,
    vstd::laws_cmp::group_laws_cmp,
};

/// The epoch in which the test network took up protocol version 2. It was in safe
/// mode then, so no event says so.
pub const SAFE_MODE_EPOCH: u64 = 742;

/// The protocol version that the test network took up in safe mode.
pub const SAFE_MODE_VERSION: u64 = 2;

/// The start of an epoch: its number, its protocol version, and the transaction
/// that started it.
#[derive(Clone, Copy, Debug, PartialEq, Eq)]
pub struct EpochStart {
    pub epoch: u64,
    pub version: u64,
    pub tx: TransactionDigest,
}

/// Whether an event says which epoch starts and under which protocol version.
pub open spec fn names_start(ev: SuiEvent) -> bool {
    ev.has_members() && ev.readable()
}

/// The start of an epoch that an event tells of.
pub open spec fn start_of(ev: SuiEvent) -> EpochStart {
    EpochStart {
        epoch: ev.number("epoch"@)->0,
        version: ev.number("protocol_version"@)->0,
        tx: ev.tx_digest,
    }
}

/// The starts of epochs that events tell of, up to the first event that tells of none.
pub open spec fn leading_starts(events: Seq<SuiEvent>) -> Seq<EpochStart>
    decreases events.len(),
{
    if events.len() == 0 {
        Seq::empty()
    } else {
        let before = leading_starts(events.drop_last());
        if before.len() == events.len() - 1 && names_start(events.last()) {
            before.push(start_of(events.last()))
        } else {
            before
        }
    }
}

/// On the test network, the first versions are known without events.
pub open spec fn is_ignored(start: EpochStart, is_testnet: bool) -> bool {
    is_testnet && start.version <= SAFE_MODE_VERSION
}

/// The protocol version in force after a row of epoch starts.
pub open spec fn version_after(starts: Seq<EpochStart>, is_testnet: bool, initial: u64) -> u64
    decreases starts.len(),
{
    if starts.len() == 0 {
        initial
    } else if is_ignored(starts.last(), is_testnet) {
        version_after(starts.drop_last(), is_testnet, initial)
    } else {
        starts.last().version
    }
}

/// The epoch starts among a row of them with which the protocol version changes.
pub open spec fn version_changes(starts: Seq<EpochStart>, is_testnet: bool, initial: u64) -> Seq<
    EpochStart,
>
    decreases starts.len(),
{
    if starts.len() == 0 {
        Seq::empty()
    } else {
        let before = version_changes(starts.drop_last(), is_testnet, initial);
        if is_ignored(starts.last(), is_testnet) || starts.last().version == version_after(
            starts.drop_last(),
            is_testnet,
            initial,
        ) {
            before
        } else {
            before.push(starts.last())
        }
    }
}

/// What a node answers to a request for a transaction.
pub type TransactionReply = Result<TransactionRecord, LocalExecError>;

/// The checkpoint in a reply.
pub open spec fn checkpoint_in(reply: TransactionReply) -> u64 {
    reply->Ok_0.checkpoint->0
}

/// What can be said of the protocol versions from a row of epoch starts.
#[verifier::ext_equal]
pub struct VersionHistory {
    /// Where each protocol version began, in the order of time.
    pub boundaries: Seq<EpochStart>,
    /// The last epoch start.
    pub end: EpochStart,
}

impl VersionHistory {
    /// The checkpoint with which a protocol version began, when the first one
    /// began with checkpoint 0.
    pub open spec fn first_checkpoint(self, replies: Seq<TransactionReply>, i: int) -> u64 {
        if i == 0 {
            0
        } else {
            checkpoint_in(replies[i - 1])
        }
    }

    /// The range of a protocol version that another one followed.
    pub open spec fn closed_range(
        self,
        replies: Seq<TransactionReply>,
        i: int,
    ) -> ProtocolVersionSummary {
        ProtocolVersionSummary {
            protocol_version: self.boundaries[i].version,
            epoch_start: self.boundaries[i].epoch,
            epoch_end: (self.boundaries[i + 1].epoch - 1) as u64,
            checkpoint_start: self.first_checkpoint(replies, i),
            checkpoint_end: (checkpoint_in(replies[i]) - 1) as u64,
            epoch_change_tx: self.boundaries[i].tx,
        }
    }

    /// The range of the last protocol version, which is still in force.
    pub open spec fn last_range(self, replies: Seq<TransactionReply>) -> ProtocolVersionSummary {
        let last = self.boundaries.len() - 1;
        ProtocolVersionSummary {
            protocol_version: self.end.version,
            epoch_start: self.boundaries[last].epoch,
            epoch_end: self.end.epoch,
            checkpoint_start: self.first_checkpoint(replies, last),
            checkpoint_end: checkpoint_in(replies[last]),
            epoch_change_tx: self.boundaries[last].tx,
        }
    }

    /// The ranges of the first protocol versions. Where a version came up twice,
    /// its last range counts.
    pub open spec fn closed_ranges(self, replies: Seq<TransactionReply>, n: int) -> Map<
        u64,
        ProtocolVersionSummary,
    >
        decreases n,
    {
        if n <= 0 {
            Map::empty()
        } else {
            self.closed_ranges(replies, n - 1).insert(
                self.boundaries[n - 1].version,
                self.closed_range(replies, n - 1),
            )
        }
    }

    /// The ranges of all protocol versions.
    pub open spec fn ranges(self, replies: Seq<TransactionReply>) -> Map<
        u64,
        ProtocolVersionSummary,
    > {
        self.closed_ranges(replies, self.boundaries.len() - 1).insert(
            self.end.version,
            self.last_range(replies),
        )
    }
}

fn checkpoint_of(reply: &TransactionReply) -> (r: u64)
    requires
        reply matches Ok(record) && record.checkpoint is Some,
    ensures
        r == checkpoint_in(*reply),
{
    match reply {
        Ok(record) => record.checkpoint.unwrap(),
        Err(_) => unreached(),
    }
}

impl LocalExec {
    /// What is known of the protocol versions without events: version 1 came with the
    /// transaction with which the network began, and the test network took up version 2 in safe
    /// mode.
    pub open spec fn initial_boundaries(&self) -> Seq<EpochStart> {
        if self.is_testnet {
            seq![
                EpochStart { epoch: 0, version: 1, tx: self.params.testnet_genesis_tx },
                EpochStart {
                    epoch: SAFE_MODE_EPOCH,
                    version: SAFE_MODE_VERSION,
                    tx: self.params.safe_mode_tx,
                },
            ]
        } else {
            seq![EpochStart { epoch: 0, version: 1, tx: self.genesis_tx }]
        }
    }

    /// What is known of the protocol versions after a row of epoch starts.
    pub open spec fn version_history(&self, starts: Seq<EpochStart>) -> VersionHistory {
        let initial = self.initial_boundaries();
        VersionHistory {
            boundaries: initial + version_changes(starts, self.is_testnet, initial.last().version),
            end: if starts.len() == 0 {
                initial.last()
            } else {
                starts.last()
            },
        }
    }

    fn initial_boundary_list(&self) -> (r: Vec<EpochStart>)
        ensures
            r@ == self.initial_boundaries(),
    {
        let mut boundaries: Vec<EpochStart> = Vec::new();
        if self.is_testnet {
            boundaries.push(
                EpochStart { epoch: 0, version: 1, tx: self.params.testnet_genesis_tx },
            );
            boundaries.push(
                EpochStart {
                    epoch: SAFE_MODE_EPOCH,
                    version: SAFE_MODE_VERSION,
                    tx: self.params.safe_mode_tx,
                },
            );
        } else {
            boundaries.push(EpochStart { epoch: 0, version: 1, tx: self.genesis_tx });
        }
        assert(boundaries@ =~= self.initial_boundaries());
        boundaries
    }

    /// The history that events tell of, up to the first event that tells of no
    /// epoch start, and the place of that event.
    fn scan_events(&self, events: &Vec<SuiEvent>) -> (r: (Vec<EpochStart>, EpochStart, usize))
        ensures
            r.0@ == self.version_history(leading_starts(events@)).boundaries,
            r.1 == self.version_history(leading_starts(events@)).end,
            r.2 == leading_starts(events@).len(),
            r.2 <= events@.len(),
            r.2 < events@.len() ==> !names_start(events@[r.2 as int]),
    {
        let mut boundaries = self.initial_boundary_list();
        let ghost initial = self.initial_boundaries();
        let last = boundaries[boundaries.len() - 1];
        let mut version: u64 = last.version;
        let mut end: EpochStart = last;
        assert(initial + Seq::<EpochStart>::empty() =~= initial);
        let mut i: usize = 0;
        while i < events.len()
            invariant
                i <= events.len(),
                initial == self.initial_boundaries(),
                leading_starts(events@.take(i as int)).len() == i,
                version == version_after(
                    leading_starts(events@.take(i as int)),
                    self.is_testnet,
                    initial.last().version,
                ),
                boundaries@ == self.version_history(
                    leading_starts(events@.take(i as int)),
                ).boundaries,
                end == self.version_history(leading_starts(events@.take(i as int))).end,
            decreases events.len() - i,
        {
            let ghost seen = leading_starts(events@.take(i as int));
            let ghost more = events@.take(i + 1);
            assert(more.drop_last() =~= events@.take(i as int));
            assert(more.last() == events@[i as int]);
            if !(events[i].is_object() && events[i].is_readable()) {
                proof {
                    assert(leading_starts(more) == seen);
                    lemma_leading_starts_stop(events@, i + 1);
                }
                return (boundaries, end, i);
            }
            match extract_epoch_and_version(events[i].clone()) {
                Ok((epoch, found)) => {
                    let start: EpochStart = EpochStart {
                        epoch,
                        version: found,
                        tx: events[i].tx_digest,
                    };
                    assert(start == start_of(events@[i as int]));
                    let ghost starts = leading_starts(more);
                    assert(starts == seen.push(start));
                    assert(starts.drop_last() =~= seen);
                    end = start;
                    if !(self.is_testnet && found <= SAFE_MODE_VERSION) {
                        if found != version {
                            boundaries.push(start);
                            assert(boundaries@ =~= initial + version_changes(
                                starts,
                                self.is_testnet,
                                initial.last().version,
                            ));
                        }
                        version = found;
                    }
                },
                Err(_) => {
                    return unreached();
                },
            }
            i += 1;
        }
        assert(events@.take(i as int) =~= events@);
        (boundaries, end, i)
    }

    /// Whether the replies that came so far fit the events: they answer, one after
    /// the other, the requests for the transactions with which the protocol version
    /// changed and for the last transaction, and only the last of them is an error.
    /// Each transaction is in a checkpoint, and no version but the first begins with
    /// epoch 0 or checkpoint 0. If all requests before an event that tells of no
    /// epoch start have been answered, then that event has another form altogether.
    pub open spec fn replies_fit(
        &self,
        events: Seq<SuiEvent>,
        replies: Seq<TransactionReply>,
    ) -> bool {
        let read = leading_starts(events).len();
        let history = self.version_history(leading_starts(events));
        let changes = history.boundaries.len() - 1;
        &&& replies.len() <= changes + 1
        &&& forall|i: int| 0 <= i < replies.len() - 1 ==> (#[trigger] replies[i]) is Ok
        &&& forall|i: int|
            0 <= i < replies.len() ==> (#[trigger] replies[i] matches Ok(record)
                ==> record.checkpoint is Some && (i < changes ==> record.checkpoint->0 > 0
                && history.boundaries[i + 1].epoch > 0))
        &&& read < events.len() && replies.len() >= changes && (replies.len() > 0
            ==> replies.last() is Ok) ==> !events[read as int].has_members()
    }

    /// What is known of where each protocol version was in force, from the replies so far.
    pub open spec fn history_step(
        &self,
        events_reply: Option<EventsReply>,
        tx_replies: Seq<TransactionReply>,
        r: Step<Result<BTreeMap<u64, ProtocolVersionSummary>, LocalExecError>>,
    ) -> bool {
        match events_reply {
            None => r.asks(RequestView::EpochChangeEvents { reverse: false }),
            Some(Err(err)) => r == Step::Done(Err::<BTreeMap<u64, ProtocolVersionSummary>, _>(err)),
            Some(Ok(events)) => {
                let read = leading_starts(events@).len();
                let history = self.version_history(leading_starts(events@));
                let changes = history.boundaries.len() - 1;
                if tx_replies.len() > 0 && tx_replies.last() is Err {
                    r == Step::Done(
                        Err::<BTreeMap<u64, ProtocolVersionSummary>, _>(
                            tx_replies.last()->Err_0,
                        ),
                    )
                } else if tx_replies.len() < changes {
                    r.asks(
                        RequestView::Transaction(
                            history.boundaries[tx_replies.len() as int + 1].tx,
                        ),
                    )
                } else if read < events@.len() {
                    r == Step::Done(
                        Err::<BTreeMap<u64, ProtocolVersionSummary>, _>(
                            LocalExecError::UnexpectedEventFormat {
                                event: events@[read as int],
                            },
                        ),
                    )
                } else if tx_replies.len() == changes {
                    r.asks(RequestView::Transaction(history.end.tx))
                } else {
                    r matches Step::Done(Ok(ranges)) && ranges@ == history.ranges(tx_replies)
                }
            },
        }
    }

    /// Where each protocol version was in force. The events that start epochs are
    /// asked for first, then the transactions with which the protocol version
    /// changed and the last transaction. The replies are what the node answered so far.
    ///
    /// The test network went through safe mode in its early days: no event tells
    /// of its protocol versions 1 and 2.
    pub fn protocol_ver_to_epoch_map(
        &self,
        events_reply: &Option<EventsReply>,
        tx_replies: &Vec<TransactionReply>,
    ) -> (r: Step<Result<BTreeMap<u64, ProtocolVersionSummary>, LocalExecError>>)
        requires
            events_reply matches Some(Ok(events)) ==> self.replies_fit(events@, tx_replies@),
        ensures
            self.history_step(*events_reply, tx_replies@, r),
    {
        let events = match events_reply {
            None => {
                return Step::Ask(Request::EpochChangeEvents { reverse: false });
            },
            Some(Err(err)) => {
                return Step::Done(Err(err.clone()));
            },
            Some(Ok(events)) => events,
        };
        let ghost history = self.version_history(leading_starts(events@));
        let (boundaries, end, read) = self.scan_events(events);
        let changes: usize = boundaries.len() - 1;
        if tx_replies.len() > 0 {
            match &tx_replies[tx_replies.len() - 1] {
                Err(err) => {
                    return Step::Done(Err(err.clone()));
                },
                Ok(_) => {},
            }
        }
        if tx_replies.len() < changes {
            return Step::Ask(Request::Transaction(boundaries[tx_replies.len() + 1].tx));
        }
        if read < events.len() {
            return Step::Done(
                Err(LocalExecError::UnexpectedEventFormat { event: events[read].clone() }),
            );
        }
        if tx_replies.len() == changes {
            return Step::Ask(Request::Transaction(end.tx));
        }
        let mut ranges: BTreeMap<u64, ProtocolVersionSummary> = BTreeMap::new();
        let mut checkpoint_start: u64 = 0;
        let mut i: usize = 0;
        while i < changes
            invariant
                i <= changes,
                changes == boundaries@.len() - 1,
                tx_replies@.len() == changes + 1,
                boundaries@ == history.boundaries,
                forall|j: int| 0 <= j < tx_replies@.len() ==> (#[trigger] tx_replies@[j]) is Ok,
                forall|j: int|
                    0 <= j < tx_replies@.len() ==> (#[trigger] tx_replies@[j] matches Ok(record)
                        ==> record.checkpoint is Some && (j < changes ==> record.checkpoint->0 > 0
                        && boundaries@[j + 1].epoch > 0)),
                checkpoint_start == history.first_checkpoint(tx_replies@, i as int),
                ranges@ == history.closed_ranges(tx_replies@, i as int),
            decreases changes - i,
        {
            assert(tx_replies@[i as int] is Ok);
            let checkpoint: u64 = checkpoint_of(&tx_replies[i]);
            ranges.insert(
                boundaries[i].version,
                ProtocolVersionSummary {
                    protocol_version: boundaries[i].version,
                    epoch_start: boundaries[i].epoch,
                    epoch_end: boundaries[i + 1].epoch - 1,
                    checkpoint_start,
                    checkpoint_end: checkpoint - 1,
                    epoch_change_tx: boundaries[i].tx,
                },
            );
            checkpoint_start = checkpoint;
            i += 1;
        }
        assert(tx_replies@[changes as int] is Ok);
        ranges.insert(
            end.version,
            ProtocolVersionSummary {
                protocol_version: end.version,
                epoch_start: boundaries[changes].epoch,
                epoch_end: end.epoch,
                checkpoint_start,
                checkpoint_end: checkpoint_of(&tx_replies[changes]),
                epoch_change_tx: boundaries[changes].tx,
            },
        );
        Step::Done(Ok(ranges))
    }

    /// Whether `protocol_ver_to_epoch_map` can go on with the replies so far.
    pub fn do_replies_fit(
        &self,
        events: &Vec<SuiEvent>,
        replies: &Vec<TransactionReply>,
    ) -> (r: bool)
        ensures
            r == self.replies_fit(events@, replies@),
    {
        let ghost history = self.version_history(leading_starts(events@));
        let (boundaries, _, read) = self.scan_events(events);
        let changes: usize = boundaries.len() - 1;
        if replies.len() > changes + 1 {
            return false;
        }
        let mut i: usize = 0;
        while i < replies.len()
            invariant
                i <= replies.len(),
                replies.len() <= changes + 1,
                changes == boundaries@.len() - 1,
                boundaries@ == history.boundaries,
                forall|j: int|
                    0 <= j < i && j < replies.len() - 1 ==> (#[trigger] replies@[j]) is Ok,
                forall|j: int|
                    0 <= j < i ==> (#[trigger] replies@[j] matches Ok(record)
                        ==> record.checkpoint is Some && (j < changes ==> record.checkpoint->0 > 0
                        && boundaries@[j + 1].epoch > 0)),
                history == self.version_history(leading_starts(events@)),
            decreases replies.len() - i,
        {
            match &replies[i] {
                Err(_) => {
                    if i + 1 < replies.len() {
                        assert(!(replies@[i as int] is Ok));
                        return false;
                    }
                },
                Ok(record) => match record.checkpoint {
                    None => {
                        assert(replies@[i as int] is Ok);
                        return false;
                    },
                    Some(checkpoint) => {
                        if i < changes && (checkpoint == 0 || boundaries[i + 1].epoch == 0) {
                            assert(replies@[i as int] is Ok);
                            return false;
                        }
                    },
                },
            }
            i += 1;
        }
        if read < events.len() && replies.len() >= changes && (replies.len() == 0 || replies[
            replies.len() - 1].is_ok()) {
            return !events[read].is_object();
        }
        true
    }
}

/// Once an event tells of no epoch start, the events behind it do not count.
proof fn lemma_leading_starts_stop(events: Seq<SuiEvent>, n: int)
    requires
        0 < n <= events.len(),
        leading_starts(events.take(n)).len() < n,
    ensures
        leading_starts(events) == leading_starts(events.take(n)),
        leading_starts(events).len() < n,
    decreases events.len() - n,
{
    if n == events.len() {
        assert(events.take(n) =~= events);
    } else {
        assert(events.take(n + 1).drop_last() =~= events.take(n));
        lemma_leading_starts_stop(events, n + 1);
    }
}

/// The version in force is the one of the last boundary, and each boundary brings
/// another version than the one before.
pub proof fn law_boundaries_are_changes(exec: &LocalExec, starts: Seq<EpochStart>)
    ensures
        exec.version_history(starts).boundaries.last().version == version_after(
            starts,
            exec.is_testnet,
            exec.initial_boundaries().last().version,
        ),
        forall|i: int|
            0 < i < exec.version_history(starts).boundaries.len() ==> (
            #[trigger] exec.version_history(starts).boundaries[i]).version
                != exec.version_history(starts).boundaries[i - 1].version,
    decreases starts.len(),
{
    let initial = exec.initial_boundaries();
    let all = exec.version_history(starts).boundaries;
    if starts.len() > 0 {
        law_boundaries_are_changes(exec, starts.drop_last());
        let before = exec.version_history(starts.drop_last()).boundaries;
        if is_ignored(starts.last(), exec.is_testnet) || starts.last().version == version_after(
            starts.drop_last(),
            exec.is_testnet,
            initial.last().version,
        ) {
            assert(all =~= before);
        } else {
            assert(all =~= before.push(starts.last()));
            assert forall|i: int| 0 < i < all.len() implies (#[trigger] all[i]).version != all[i
                - 1].version by {
                if i < before.len() {
                    assert(before[i].version != before[i - 1].version);
                }
            }
        }
    } else {
        assert(all =~= initial);
    }
}

/// On every network, protocol version 1 began with epoch 0 and came with the transaction with
/// which the network began. Where protocol versions only go up, the table says so.
pub proof fn law_version_one_came_with_the_network(
    exec: &LocalExec,
    first_checkpoint_txs: Vec<TransactionDigest>,
    params: NetworkParams,
    starts: Seq<EpochStart>,
    replies: Seq<TransactionReply>,
)
    requires
        is_new_session(Ok(first_checkpoint_txs), params, Ok(*exec)),
    ensures
        ({
            let history = exec.version_history(starts);
            let origin = genesis_in(first_checkpoint_txs@, params);
            &&& history.boundaries[0] == (EpochStart { epoch: 0, version: 1, tx: origin })
            &&& history.goes_up() && history.end.version == history.boundaries.last().version ==> {
                &&& history.ranges(replies).contains_key(1)
                &&& history.ranges(replies)[1].epoch_start == 0
                &&& history.ranges(replies)[1].checkpoint_start == 0
                &&& history.ranges(replies)[1].epoch_change_tx == origin
            }
        }),
{
    let history = exec.version_history(starts);
    let last = history.boundaries.len() - 1;
    if history.goes_up() && 0 < last {
        assert(history.boundaries[0].version < history.boundaries[last].version);
        lemma_closed_ranges(history, replies, last, 0);
    }
}

/// The last epoch start is under the version of the last boundary, unless it is
/// one of those that are ignored.
pub proof fn law_history_ends_with_last_boundary(exec: &LocalExec, starts: Seq<EpochStart>)
    requires
        starts.len() > 0 ==> !is_ignored(starts.last(), exec.is_testnet),
    ensures
        exec.version_history(starts).end.version == exec.version_history(
            starts,
        ).boundaries.last().version,
{
    law_boundaries_are_changes(exec, starts);
}

impl VersionHistory {
    /// Each protocol version is higher than those before it, and began in a later epoch.
    pub open spec fn goes_up(self) -> bool {
        forall|i: int, j: int|
            0 <= i < j < self.boundaries.len() ==> (#[trigger] self.boundaries[i]).version < (
            #[trigger] self.boundaries[j]).version && self.boundaries[i].epoch
                < self.boundaries[j].epoch
    }
}

impl LocalExec {
    /// Epoch starts in the order of time, under protocol versions that do not go back: each
    /// epoch is later than the one before, and those that count are later than what is
    /// known without events, and under no lower version.
    pub open spec fn starts_rise(&self, starts: Seq<EpochStart>) -> bool {
        let known = self.initial_boundaries().last();
        &&& forall|i: int, j: int|
            0 <= i < j < starts.len() ==> (#[trigger] starts[i]).epoch < (
            #[trigger] starts[j]).epoch && starts[i].version <= starts[j].version
        &&& forall|i: int|
            0 <= i < starts.len() && !is_ignored(#[trigger] starts[i], self.is_testnet)
                ==> known.epoch < starts[i].epoch && known.version <= starts[i].version
    }
}

proof fn lemma_changes_are_starts(
    starts: Seq<EpochStart>,
    is_testnet: bool,
    initial: u64,
    k: int,
) -> (i: int)
    requires
        0 <= k < version_changes(starts, is_testnet, initial).len(),
    ensures
        0 <= i < starts.len(),
        version_changes(starts, is_testnet, initial)[k] == starts[i],
        !is_ignored(starts[i], is_testnet),
    decreases starts.len(),
{
    let shorter = starts.drop_last();
    if k < version_changes(shorter, is_testnet, initial).len() {
        lemma_changes_are_starts(shorter, is_testnet, initial, k)
    } else {
        starts.len() - 1
    }
}

/// Where epochs come in the order of time and protocol versions do not go back, the history
/// that is read off them goes up.
pub proof fn law_rising_starts_go_up(exec: &LocalExec, starts: Seq<EpochStart>)
    requires
        exec.starts_rise(starts),
    ensures
        exec.version_history(starts).goes_up(),
    decreases starts.len(),
{
    let initial = exec.initial_boundaries();
    let known = initial.last();
    let all = exec.version_history(starts).boundaries;
    if starts.len() > 0 {
        let shorter = starts.drop_last();
        let before = exec.version_history(shorter).boundaries;
        let last = starts[starts.len() - 1];
        assert(forall|i: int| 0 <= i < shorter.len() ==> #[trigger] shorter[i] == starts[i]);
        law_rising_starts_go_up(exec, shorter);
        law_boundaries_are_changes(exec, shorter);
        if is_ignored(last, exec.is_testnet) || last.version == version_after(
            shorter,
            exec.is_testnet,
            known.version,
        ) {
            assert(all =~= before);
        } else {
            assert(all =~= before.push(last));
            let end = before.len() - 1;
            assert(before[end].epoch < last.epoch && before[end].version < last.version) by {
                if end >= initial.len() {
                    let i = lemma_changes_are_starts(
                        shorter,
                        exec.is_testnet,
                        known.version,
                        end - initial.len(),
                    );
                    assert(before[end] == starts[i]);
                } else {
                    assert(before[end] == known);
                }
            }
            assert forall|i: int, j: int| 0 <= i < j < all.len() implies (
            #[trigger] all[i]).version < (#[trigger] all[j]).version && all[i].epoch
                < all[j].epoch by {
                if j < before.len() {
                    assert(before[i].version < before[j].version);
                } else if i < end {
                    assert(before[i].version < before[end].version);
                }
            }
        }
    } else {
        assert(all =~= initial);
    }
}

proof fn lemma_closed_ranges(
    history: VersionHistory,
    replies: Seq<TransactionReply>,
    n: int,
    i: int,
)
    requires
        history.goes_up(),
        0 <= i < n < history.boundaries.len(),
    ensures
        history.closed_ranges(replies, n).contains_pair(
            history.boundaries[i].version,
            history.closed_range(replies, i),
        ),
    decreases n,
{
    if i < n - 1 {
        lemma_closed_ranges(history, replies, n - 1, i);
    }
}

proof fn lemma_closed_range_keys(
    history: VersionHistory,
    replies: Seq<TransactionReply>,
    n: int,
    version: u64,
)
    requires
        n < history.boundaries.len(),
        history.closed_ranges(replies, n).contains_key(version),
    ensures
        exists|i: int| 0 <= i < n && (#[trigger] history.boundaries[i]).version == version,
    decreases n,
{
    if n > 0 {
        if version != history.boundaries[n - 1].version {
            lemma_closed_range_keys(history, replies, n - 1, version);
        }
    }
}

/// The ranges of protocol versions that only go up leave no gap and do not overlap:
/// the epochs and the checkpoints of each version begin where those of the version
/// before end.
pub proof fn law_ranges_meet(history: VersionHistory, replies: Seq<TransactionReply>, i: int)
    requires
        history.goes_up(),
        history.end.version == history.boundaries.last().version,
        0 <= i < history.boundaries.len() - 1,
        checkpoint_in(replies[i]) > 0,
    ensures
        ({
            let ranges = history.ranges(replies);
            let here = history.boundaries[i].version;
            let next = history.boundaries[i + 1].version;
            &&& ranges.contains_key(here) && ranges.contains_key(next)
            &&& ranges[here].epoch_end + 1 == ranges[next].epoch_start
            &&& ranges[here].checkpoint_end + 1 == ranges[next].checkpoint_start
            &&& ranges[here].epoch_start <= ranges[here].epoch_end
        }),
{
    let last = history.boundaries.len() - 1;
    assert(history.boundaries[i].version < history.boundaries[last].version);
    assert(history.boundaries[i].epoch < history.boundaries[i + 1].epoch);
    lemma_closed_ranges(history, replies, last, i);
    if i + 1 < last {
        assert(history.boundaries[i + 1].version < history.boundaries[last].version);
        lemma_closed_ranges(history, replies, last, i + 1);
    }
}

/// Where protocol versions only go up, the version that the table gives for an
/// epoch is the one of the last boundary that is not behind the epoch.
pub proof fn law_table_gives_version_in_force(
    history: VersionHistory,
    replies: Seq<TransactionReply>,
    i: int,
    epoch: u64,
)
    requires
        history.goes_up(),
        history.end.version == history.boundaries.last().version,
        0 <= i < history.boundaries.len(),
        history.boundaries[i].epoch <= epoch,
        i < history.boundaries.len() - 1 ==> epoch < history.boundaries[i + 1].epoch,
    ensures
        LocalExec::is_version_at(history.ranges(replies), epoch, history.boundaries[i].version),
{
    let ranges = history.ranges(replies);
    let last = history.boundaries.len() - 1;
    let here = history.boundaries[i].version;
    if i < last {
        lemma_closed_ranges(history, replies, last, i);
        assert(here < history.boundaries[last].version);
    }
    assert forall|other: u64| #[trigger]
        ranges.contains_key(other) && ranges[other].epoch_start <= epoch implies other <= here by {
        if other == history.end.version {
            if i < last {
                assert(history.boundaries[i + 1].epoch <= history.boundaries[last].epoch);
            }
        } else {
            lemma_closed_range_keys(history, replies, last, other);
            let k = choose|k: int|
                0 <= k < last && (#[trigger] history.boundaries[k]).version == other;
            lemma_closed_ranges(history, replies, last, k);
            if i < k {
                assert(history.boundaries[i + 1].epoch <= history.boundaries[k].epoch);
                assert(here < history.boundaries[k].version);
            } else if k < i {
                assert(history.boundaries[k].version < here);
            }
        }
    }
}

/// On the test network, what events tell of protocol versions 1 and 2 does not count.
pub open spec fn counts(is_testnet: bool, version: u64) -> bool {
    !(is_testnet && version <= 2)
}

/// Whether the event at a place tells of a change of the protocol version: it counts, and its
/// version is not that of the last event before it that counts, or not the one that was known
/// without events if there is none.
#[verifier::opaque]
pub open spec fn tells_change(versions: Seq<u64>, is_testnet: bool, i: int) -> bool {
    &&& 0 <= i < versions.len()
    &&& counts(is_testnet, versions[i])
    &&& forall|j: int|
        is_last_counted(versions, is_testnet, j, i) ==> #[trigger] versions[j] != versions[i]
    &&& (forall|j: int| 0 <= j < i ==> !counts(is_testnet, #[trigger] versions[j])) ==> versions[i]
        != if is_testnet {
        2u64
    } else {
        1u64
    }
}

/// Whether the last event that counts before a place stands at another.
pub open spec fn is_last_counted(versions: Seq<u64>, is_testnet: bool, j: int, i: int) -> bool {
    &&& 0 <= j < i
    &&& counts(is_testnet, versions[j])
    &&& forall|k: int| j < k < i ==> !counts(is_testnet, #[trigger] versions[k])
}

/// Whether the next change of the protocol version behind a place stands at another.
pub open spec fn is_next_change(versions: Seq<u64>, is_testnet: bool, i: int, j: int) -> bool {
    &&& i < j
    &&& tells_change(versions, is_testnet, j)
    &&& forall|k: int| i < k < j ==> !(#[trigger] tells_change(versions, is_testnet, k))
}

/// Whether no event behind a place tells of a change to a protocol version, and the last
/// event is not under it.
pub open spec fn is_left_behind(
    versions: Seq<u64>,
    is_testnet: bool,
    i: int,
    version: u64,
) -> bool {
    &&& forall|k: int|
        i < k && #[trigger] tells_change(versions, is_testnet, k) ==> versions[k] != version
    &&& versions.len() > 0 ==> versions.last() != version
}

proof fn lemma_change_counts(versions: Seq<u64>, is_testnet: bool, i: int)
    requires
        tells_change(versions, is_testnet, i),
    ensures
        0 <= i < versions.len(),
        counts(is_testnet, versions[i]),
{
    reveal(tells_change);
}

/// Places of the changes among epoch starts.
#[verifier::opaque]
spec fn are_places(
    starts: Seq<EpochStart>,
    is_testnet: bool,
    initial: u64,
    places: Seq<int>,
) -> bool {
    let changes = version_changes(starts, is_testnet, initial);
    &&& places.len() == changes.len()
    &&& forall|b: int|
        0 <= b < places.len() ==> 0 <= #[trigger] places[b] < starts.len() && changes[b]
            == starts[places[b]] && !is_ignored(starts[places[b]], is_testnet)
    &&& forall|b: int, c: int| 0 <= b < c < places.len() ==> #[trigger] places[b]
        < #[trigger] places[c]
    &&& forall|b: int, k: int|
        0 <= b < places.len() && #[trigger] places[b] <= k < place_behind(starts, places, b)
            && !is_ignored(#[trigger] starts[k], is_testnet) ==> starts[k].version
            == changes[b].version
    &&& forall|k: int|
        0 <= k < place_behind(starts, places, -1) && !is_ignored(#[trigger] starts[k], is_testnet)
            ==> starts[k].version == initial
    &&& forall|b: int|
        0 <= b < places.len() ==> (#[trigger] changes[b]).version != version_at(
            changes,
            initial,
            b - 1,
        )
    &&& version_after(starts, is_testnet, initial) == version_at(
        changes,
        initial,
        changes.len() - 1,
    )
}

spec fn version_at(changes: Seq<EpochStart>, initial: u64, b: int) -> u64 {
    if b < 0 {
        initial
    } else {
        changes[b].version
    }
}

spec fn place_behind(starts: Seq<EpochStart>, places: Seq<int>, b: int) -> int {
    if b + 1 < places.len() {
        places[b + 1]
    } else {
        starts.len() as int
    }
}

proof fn lemma_places(starts: Seq<EpochStart>, is_testnet: bool, initial: u64) -> (places: Seq<
    int,
>)
    ensures
        are_places(starts, is_testnet, initial, places),
    decreases starts.len(),
{
    reveal(are_places);
    if starts.len() == 0 {
        Seq::empty()
    } else {
        let shorter = starts.drop_last();
        let last = starts[starts.len() - 1];
        let n = starts.len() - 1;
        let before = lemma_places(shorter, is_testnet, initial);
        let old_changes = version_changes(shorter, is_testnet, initial);
        let changes = version_changes(starts, is_testnet, initial);
        assert(forall|k: int| 0 <= k < n ==> #[trigger] shorter[k] == starts[k]);
        let places = if is_ignored(last, is_testnet) || last.version == version_after(
            shorter,
            is_testnet,
            initial,
        ) {
            before
        } else {
            before.push(n)
        };
        assert(forall|b: int| 0 <= b < before.len() ==> #[trigger] places[b] == before[b]);
        assert(forall|b: int| 0 <= b < old_changes.len() ==> #[trigger] changes[b] == old_changes[b]);
        assert forall|b: int| 0 <= b < places.len() implies 0 <= #[trigger] places[b] < starts.len()
            && changes[b] == starts[places[b]] && !is_ignored(starts[places[b]], is_testnet) by {
            if b < before.len() {
                assert(0 <= before[b] < shorter.len());
            }
        }
        assert forall|b: int, c: int| 0 <= b < c < places.len() implies #[trigger] places[b]
            < #[trigger] places[c] by {
            assert(0 <= before[b] < shorter.len());
            if c < before.len() {
                assert(before[b] < before[c]);
            }
        }
        assert forall|b: int, k: int|
            0 <= b < places.len() && #[trigger] places[b] <= k < place_behind(starts, places, b)
                && !is_ignored(#[trigger] starts[k], is_testnet) implies starts[k].version
            == changes[b].version by {
            if b < before.len() {
                if k < n {
                    assert(shorter[k] == starts[k]);
                    assert(before[b] <= k < place_behind(shorter, before, b));
                } else {
                    assert(b == before.len() - 1);
                    assert(places.len() == before.len());
                }
            }
        }
        assert forall|k: int|
            0 <= k < place_behind(starts, places, -1) && !is_ignored(
                #[trigger] starts[k],
                is_testnet,
            ) implies starts[k].version == initial by {
            if k < n {
                assert(shorter[k] == starts[k]);
                if before.len() > 0 {
                    assert(places[0] == before[0]);
                }
            } else {
                assert(before.len() == 0);
            }
        }
        assert forall|b: int| 0 <= b < places.len() implies (#[trigger] changes[b]).version
            != version_at(changes, initial, b - 1) by {
            if b < before.len() {
                assert(old_changes[b].version != version_at(old_changes, initial, b - 1));
            }
        }
        places
    }
}

/// The starts that events say.
spec fn said_starts(events: Seq<SuiEvent>, epochs: Seq<u64>, versions: Seq<u64>) -> Seq<EpochStart> {
    Seq::new(
        events.len(),
        |i: int| EpochStart { epoch: epochs[i], version: versions[i], tx: events[i].tx_digest },
    )
}

proof fn lemma_said_starts(events: Seq<SuiEvent>, epochs: Seq<u64>, versions: Seq<u64>)
    requires
        all_say(events, epochs, versions),
    ensures
        leading_starts(events) == said_starts(events, epochs, versions),
    decreases events.len(),
{
    let all = said_starts(events, epochs, versions);
    if events.len() > 0 {
        let shorter = events.drop_last();
        let last = events.len() - 1;
        assert(forall|i: int| 0 <= i < last ==> #[trigger] shorter[i] == events[i]);
        lemma_said_starts(shorter, epochs.take(last), versions.take(last));
        lemma_says(events[last], "epoch"@, epochs[last]);
        lemma_says(events[last], "protocol_version"@, versions[last]);
        assert(all =~= said_starts(shorter, epochs.take(last), versions.take(last)).push(
            start_of(events.last()),
        ));
    } else {
        assert(all =~= Seq::empty());
    }
}

/// Somewhere before a place stands the last event that counts, if any does.
proof fn lemma_last_counted(versions: Seq<u64>, is_testnet: bool, j: int, i: int) -> (k: int)
    requires
        0 <= j < i <= versions.len(),
        counts(is_testnet, versions[j]),
    ensures
        j <= k < i,
        is_last_counted(versions, is_testnet, k, i),
    decreases i - j,
{
    if exists|k: int| j < k < i && counts(is_testnet, #[trigger] versions[k]) {
        let k = choose|k: int| j < k < i && counts(is_testnet, #[trigger] versions[k]);
        lemma_last_counted(versions, is_testnet, k, i)
    } else {
        j
    }
}

/// The places of the changes are those of the events that tell of a change.
proof fn lemma_places_tell_changes(
    starts: Seq<EpochStart>,
    versions: Seq<u64>,
    is_testnet: bool,
    places: Seq<int>,
    i: int,
)
    requires
        versions.len() == starts.len(),
        forall|k: int| 0 <= k < starts.len() ==> (#[trigger] starts[k]).version == versions[k],
        are_places(
            starts,
            is_testnet,
            if is_testnet {
                2
            } else {
                1
            },
            places,
        ),
    ensures
        tells_change(versions, is_testnet, i) <==> places.contains(i),
{
    reveal(are_places);
    reveal(tells_change);
    let initial: u64 = if is_testnet {
        2
    } else {
        1
    };
    let changes = version_changes(starts, is_testnet, initial);
    assert(forall|k: int|
        0 <= k < starts.len() ==> (is_ignored(#[trigger] starts[k], is_testnet) <==> !counts(
            is_testnet,
            versions[k],
        )));
    if places.contains(i) {
        let b = places.index_of(i);
        assert(0 <= places[b] < starts.len());
        assert(changes[b].version != version_at(changes, initial, b - 1));
        assert forall|j: int| is_last_counted(versions, is_testnet, j, i) implies
            #[trigger] versions[j] != versions[i] by {
            assert(!is_ignored(starts[j], is_testnet));
            if b == 0 {
                assert(j < place_behind(starts, places, -1));
            } else {
                let p = places[b - 1];
                assert(places[b - 1] < places[b]);
                assert(0 <= p < starts.len() && changes[b - 1] == starts[p]);
                if j < p {
                    assert(!counts(is_testnet, versions[p]));
                }
                assert(places[b - 1] <= j < place_behind(starts, places, b - 1));
            }
        }
        if forall|j: int| 0 <= j < i ==> !counts(is_testnet, #[trigger] versions[j]) {
            if b > 0 {
                let p = places[b - 1];
                assert(places[b - 1] < places[b]);
                assert(0 <= p < starts.len());
                assert(!counts(is_testnet, versions[p]));
            }
        }
    }
    if tells_change(versions, is_testnet, i) && !places.contains(i) {
        assert(!is_ignored(starts[i], is_testnet));
        if i < place_behind(starts, places, -1) {
            if exists|j: int| 0 <= j < i && counts(is_testnet, #[trigger] versions[j]) {
                let j = choose|j: int| 0 <= j < i && counts(is_testnet, #[trigger] versions[j]);
                let k = lemma_last_counted(versions, is_testnet, j, i);
                assert(!is_ignored(starts[k], is_testnet));
                assert(versions[k] != versions[i]);
            }
            assert(false);
        } else {
            let b = lemma_segment(starts, places, places.len() - 1, i);
            let p = places[b];
            assert(0 <= p < starts.len());
            assert(p != i);
            let k = lemma_last_counted(versions, is_testnet, p, i);
            assert(!is_ignored(starts[k], is_testnet));
            assert(places[b] <= k < place_behind(starts, places, b));
            assert(places[b] <= i < place_behind(starts, places, b));
            assert(versions[k] != versions[i]);
            assert(false);
        }
    }
}

/// A place stands between that of one change and the next.
proof fn lemma_segment(starts: Seq<EpochStart>, places: Seq<int>, last: int, i: int) -> (b: int)
    requires
        0 <= last < places.len(),
        i < place_behind(starts, places, last),
        place_behind(starts, places, -1) <= i,
    ensures
        0 <= b <= last,
        places[b] <= i < place_behind(starts, places, b),
    decreases last,
{
    if places[last] <= i {
        last
    } else {
        lemma_segment(starts, places, last - 1, i)
    }
}

/// One of the places, and how it stands to another.
proof fn lemma_place(
    starts: Seq<EpochStart>,
    is_testnet: bool,
    initial: u64,
    places: Seq<int>,
    b: int,
    c: int,
)
    requires
        are_places(starts, is_testnet, initial, places),
    ensures
        places.len() == version_changes(starts, is_testnet, initial).len(),
        0 <= b < places.len() ==> 0 <= places[b] < starts.len() && version_changes(
            starts,
            is_testnet,
            initial,
        )[b] == starts[places[b]] && !is_ignored(starts[places[b]], is_testnet),
        0 <= b < c < places.len() ==> places[b] < places[c],
{
    reveal(are_places);
}

/// What counts between a place and the next is under the version of the change.
proof fn lemma_between_places(
    starts: Seq<EpochStart>,
    is_testnet: bool,
    initial: u64,
    places: Seq<int>,
    b: int,
    k: int,
)
    requires
        are_places(starts, is_testnet, initial, places),
        -1 <= b < places.len(),
        if b < 0 {
            0 <= k
        } else {
            places[b] <= k
        },
        k < place_behind(starts, places, b),
        !is_ignored(starts[k], is_testnet),
    ensures
        starts[k].version == if b < 0 {
            initial
        } else {
            starts[places[b]].version
        },
{
    reveal(are_places);
    if b >= 0 {
        assert(0 <= places[b] < starts.len());
        assert(places[b] <= k);
        assert(starts[k] == starts[k]);
    }
}

/// There are no more places than epoch starts.
proof fn lemma_places_are_no_more(
    starts: Seq<EpochStart>,
    is_testnet: bool,
    initial: u64,
    places: Seq<int>,
    n: int,
)
    requires
        are_places(starts, is_testnet, initial, places),
        0 <= n <= places.len(),
    ensures
        n > 0 ==> places[n - 1] >= n - 1,
        n <= starts.len(),
    decreases n,
{
    if n > 0 {
        lemma_places_are_no_more(starts, is_testnet, initial, places, n - 1);
        lemma_place(starts, is_testnet, initial, places, n - 1, n - 1);
        lemma_place(starts, is_testnet, initial, places, n - 2, n - 1);
    }
}

/// Whether the reply at a place is what a node answered to the request that was put when the
/// replies before it were there: the checkpoint of the transaction that was asked for.
pub open spec fn history_answered_at(
    exec: &LocalExec,
    events: Vec<SuiEvent>,
    replies: Seq<TransactionReply>,
    checkpoints: spec_fn(TransactionDigest) -> u64,
    k: int,
) -> bool {
    exists|so_far: Vec<TransactionReply>, tx: TransactionDigest|
        {
            &&& so_far@ == replies.take(k)
            &&& #[trigger] call_ensures(
                LocalExec::protocol_ver_to_epoch_map,
                (exec, &Some(Ok::<_, LocalExecError>(events)), &so_far),
                Step::Ask(Request::Transaction(tx)),
            )
            &&& replies[k] matches Ok(record) && record.checkpoint == Some(checkpoints(tx))
        }
}

/// Whether all replies are what a node answered to the requests that were put.
pub open spec fn history_answered(
    exec: &LocalExec,
    events: Vec<SuiEvent>,
    replies: Seq<TransactionReply>,
    checkpoints: spec_fn(TransactionDigest) -> u64,
) -> bool {
    forall|k: int|
        0 <= k < replies.len() ==> #[trigger] history_answered_at(
            exec,
            events,
            replies,
            checkpoints,
            k,
        )
}

proof fn lemma_history_answers(
    exec: &LocalExec,
    events: Vec<SuiEvent>,
    epochs: Seq<u64>,
    versions: Seq<u64>,
    replies: Seq<TransactionReply>,
    checkpoints: spec_fn(TransactionDigest) -> u64,
    k: int,
)
    requires
        all_say(events@, epochs, versions),
        exec.replies_fit(events@, replies),
        history_answered(exec, events, replies, checkpoints),
        0 <= k < replies.len(),
    ensures
        ({
            let history = exec.version_history(said_starts(events@, epochs, versions));
            &&& replies[k] is Ok
            &&& checkpoint_in(replies[k]) == checkpoints(
                if k < history.boundaries.len() - 1 {
                    history.boundaries[k + 1].tx
                } else {
                    history.end.tx
                },
            )
        }),
{
    lemma_said_starts(events@, epochs, versions);
    assert(history_answered_at(exec, events, replies, checkpoints, k));
    let (so_far, tx) = choose|so_far: Vec<TransactionReply>, tx: TransactionDigest|
        {
            &&& so_far@ == replies.take(k)
            &&& #[trigger] call_ensures(
                LocalExec::protocol_ver_to_epoch_map,
                (exec, &Some(Ok::<_, LocalExecError>(events)), &so_far),
                Step::Ask(Request::Transaction(tx)),
            )
            &&& replies[k] matches Ok(record) && record.checkpoint == Some(checkpoints(tx))
        };
    assert forall|j: int| 0 <= j < so_far@.len() implies #[trigger] so_far@[j] == replies[j]
        && replies[j] is Ok by {
        assert(history_answered_at(exec, events, replies, checkpoints, j));
    }
    assert(exec.replies_fit(events@, so_far@));
}

/// The range of the last of some boundaries under a protocol version is the one that counts.
proof fn lemma_last_closed_range(
    history: VersionHistory,
    replies: Seq<TransactionReply>,
    n: int,
    b: int,
)
    requires
        0 <= b < n < history.boundaries.len(),
        forall|c: int|
            b < c < n ==> (#[trigger] history.boundaries[c]).version
                != history.boundaries[b].version,
    ensures
        history.closed_ranges(replies, n).contains_pair(
            history.boundaries[b].version,
            history.closed_range(replies, b),
        ),
    decreases n,
{
    if b < n - 1 {
        lemma_last_closed_range(history, replies, n - 1, b);
    }
}

/// Where the change that an event tells of stands among the boundaries.
proof fn lemma_boundary_of_change(
    exec: &LocalExec,
    starts: Seq<EpochStart>,
    versions: Seq<u64>,
    i: int,
    j: int,
) -> (d: int)
    requires
        versions.len() == starts.len(),
        forall|k: int| 0 <= k < starts.len() ==> (#[trigger] starts[k]).version == versions[k],
        tells_change(versions, exec.is_testnet, i),
    ensures
        ({
            let boundaries = exec.version_history(starts).boundaries;
            &&& 0 < d < boundaries.len()
            &&& boundaries[d] == starts[i]
            &&& is_next_change(versions, exec.is_testnet, i, j) ==> d + 1 < boundaries.len()
                && boundaries[d + 1] == starts[j]
            &&& is_left_behind(versions, exec.is_testnet, i, versions[i]) ==> forall|c: int|
                d < c < boundaries.len() ==> (#[trigger] boundaries[c]).version != versions[i]
            &&& (forall|k: int| i < k ==> !(#[trigger] tells_change(versions, exec.is_testnet, k)))
                ==> d + 1 == boundaries.len()
        }),
{
    let boundaries = exec.version_history(starts).boundaries;
    let initial = exec.initial_boundaries();
    let m = initial.len() as int;
    let known = initial.last().version;
    let is_testnet = exec.is_testnet;
    let places = lemma_places(starts, is_testnet, known);
    lemma_places_tell_changes(starts, versions, is_testnet, places, i);
    let b = places.index_of(i);
    lemma_place(starts, is_testnet, known, places, b, b);
    if is_next_change(versions, is_testnet, i, j) {
        lemma_places_tell_changes(starts, versions, is_testnet, places, j);
        let c = places.index_of(j);
        lemma_place(starts, is_testnet, known, places, c, b);
        if b + 1 < c {
            let p = places[b + 1];
            lemma_place(starts, is_testnet, known, places, b, b + 1);
            lemma_place(starts, is_testnet, known, places, b + 1, c);
            lemma_places_tell_changes(starts, versions, is_testnet, places, p);
            assert(places.contains(p));
            assert(!tells_change(versions, is_testnet, p));
        }
        assert(c == b + 1);
    }
    if is_left_behind(versions, is_testnet, i, versions[i]) {
        assert forall|c: int| m + b < c < boundaries.len() implies (
        #[trigger] boundaries[c]).version != versions[i] by {
            let p = places[c - m];
            lemma_place(starts, is_testnet, known, places, b, c - m);
            lemma_place(starts, is_testnet, known, places, c - m, c - m);
            lemma_places_tell_changes(starts, versions, is_testnet, places, p);
            assert(places.contains(p));
            assert(tells_change(versions, is_testnet, p));
        }
    }
    if forall|k: int| i < k ==> !(#[trigger] tells_change(versions, is_testnet, k)) {
        if b + 1 < places.len() {
            let p = places[b + 1];
            lemma_place(starts, is_testnet, known, places, b, b + 1);
            lemma_places_tell_changes(starts, versions, is_testnet, places, p);
            assert(places.contains(p));
            assert(!tells_change(versions, is_testnet, p));
        }
    }
    m + b
}

/// Where what is known without events ends among the boundaries.
proof fn lemma_boundaries_begin(
    exec: &LocalExec,
    starts: Seq<EpochStart>,
    versions: Seq<u64>,
    j: int,
)
    requires
        versions.len() == starts.len(),
        forall|k: int| 0 <= k < starts.len() ==> (#[trigger] starts[k]).version == versions[k],
    ensures
        ({
            let boundaries = exec.version_history(starts).boundaries;
            let m = exec.initial_boundaries().len() as int;
            let known: u64 = if exec.is_testnet {
                2
            } else {
                1
            };
            &&& is_next_change(versions, exec.is_testnet, -1, j) ==> m < boundaries.len()
                && boundaries[m] == starts[j]
            &&& is_left_behind(versions, exec.is_testnet, -1, known) ==> forall|c: int|
                m <= c < boundaries.len() ==> (#[trigger] boundaries[c]).version != known
            &&& exec.is_testnet ==> forall|c: int|
                m <= c < boundaries.len() ==> (#[trigger] boundaries[c]).version > 2
            &&& (forall|k: int| !(#[trigger] tells_change(versions, exec.is_testnet, k)))
                ==> boundaries.len() == m
        }),
{
    let boundaries = exec.version_history(starts).boundaries;
    let initial = exec.initial_boundaries();
    let m = initial.len() as int;
    let known = initial.last().version;
    let is_testnet = exec.is_testnet;
    let places = lemma_places(starts, is_testnet, known);
    lemma_place(starts, is_testnet, known, places, 0, 0);
    if is_next_change(versions, is_testnet, -1, j) {
        lemma_places_tell_changes(starts, versions, is_testnet, places, j);
        let c = places.index_of(j);
        lemma_place(starts, is_testnet, known, places, c, c);
        if 0 < c {
            let p = places[0];
            lemma_place(starts, is_testnet, known, places, 0, c);
            lemma_places_tell_changes(starts, versions, is_testnet, places, p);
            assert(places.contains(p));
            assert(!tells_change(versions, is_testnet, p));
        }
    }
    assert forall|c: int| m <= c < boundaries.len() implies {
        &&& boundaries[c].version == versions[places[c - m]]
        &&& #[trigger] tells_change(versions, is_testnet, places[c - m])
    } by {
        let p = places[c - m];
        lemma_place(starts, is_testnet, known, places, c - m, c - m);
        lemma_places_tell_changes(starts, versions, is_testnet, places, p);
        assert(places.contains(p));
    }
    assert forall|c: int| m <= c < boundaries.len() implies {
        &&& is_left_behind(versions, is_testnet, -1, known) ==> (
        #[trigger] boundaries[c]).version != known
        &&& is_testnet ==> boundaries[c].version > 2
    } by {
        lemma_place(starts, is_testnet, known, places, c - m, c - m);
        assert(tells_change(versions, is_testnet, places[c - m]));
    }
    if boundaries.len() > m {
        assert(tells_change(versions, is_testnet, places[m - m]));
    }
}

/// What a finished history is made of.
proof fn lemma_finished_history(
    exec: &LocalExec,
    events: Vec<SuiEvent>,
    epochs: Seq<u64>,
    versions: Seq<u64>,
    replies: Vec<TransactionReply>,
    ranges: BTreeMap<u64, ProtocolVersionSummary>,
)
    requires
        all_say(events@, epochs, versions),
        exec.replies_fit(events@, replies@),
        call_ensures(
            LocalExec::protocol_ver_to_epoch_map,
            (exec, &Some(Ok::<_, LocalExecError>(events)), &replies),
            Step::Done(Ok(ranges)),
        ),
    ensures
        ({
            let history = exec.version_history(said_starts(events@, epochs, versions));
            &&& replies@.len() == history.boundaries.len()
            &&& ranges@ == history.ranges(replies@)
            &&& forall|k: int|
                0 <= k < history.boundaries.len() - 1 ==> (#[trigger] replies@[k]) is Ok
                    && checkpoint_in(replies@[k]) > 0 && history.boundaries[k + 1].epoch > 0
        }),
{
    lemma_said_starts(events@, epochs, versions);
}

/// A finished history says of each change of the protocol version what the events and the
/// node say: the version began with the epoch and the transaction of the event that tells of
/// the change, and with the checkpoint of that transaction. It lasted until the epoch before
/// that of the next change and the checkpoint before that of its transaction, or, where
/// there is no next change, until the last event. Where a version came up more than once, this
/// is said of the last time.
pub proof fn law_each_change_is_in_the_history(
    exec: &LocalExec,
    events: Vec<SuiEvent>,
    epochs: Seq<u64>,
    versions: Seq<u64>,
    replies: Vec<TransactionReply>,
    checkpoints: spec_fn(TransactionDigest) -> u64,
    ranges: BTreeMap<u64, ProtocolVersionSummary>,
    i: int,
    j: int,
)
    requires
        all_say(events@, epochs, versions),
        exec.replies_fit(events@, replies@),
        history_answered(exec, events, replies@, checkpoints),
        call_ensures(
            LocalExec::protocol_ver_to_epoch_map,
            (exec, &Some(Ok::<_, LocalExecError>(events)), &replies),
            Step::Done(Ok(ranges)),
        ),
        tells_change(versions, exec.is_testnet, i),
    ensures
        is_next_change(versions, exec.is_testnet, i, j) && is_left_behind(
            versions,
            exec.is_testnet,
            i,
            versions[i],
        ) ==> epochs[j] > 0 && checkpoints(events@[j].tx_digest) > 0 && ranges@.contains_pair(
            versions[i],
            ProtocolVersionSummary {
                protocol_version: versions[i],
                epoch_start: epochs[i],
                epoch_end: (epochs[j] - 1) as u64,
                checkpoint_start: checkpoints(events@[i].tx_digest),
                checkpoint_end: (checkpoints(events@[j].tx_digest) - 1) as u64,
                epoch_change_tx: events@[i].tx_digest,
            },
        ),
        (forall|k: int| i < k ==> !(#[trigger] tells_change(versions, exec.is_testnet, k)))
            ==> ranges@.contains_pair(
            versions.last(),
            ProtocolVersionSummary {
                protocol_version: versions.last(),
                epoch_start: epochs[i],
                epoch_end: epochs.last(),
                checkpoint_start: checkpoints(events@[i].tx_digest),
                checkpoint_end: checkpoints(events@.last().tx_digest),
                epoch_change_tx: events@[i].tx_digest,
            },
        ),
{
    let starts = said_starts(events@, epochs, versions);
    let history = exec.version_history(starts);
    lemma_finished_history(exec, events, epochs, versions, replies, ranges);
    lemma_change_counts(versions, exec.is_testnet, i);
    if is_next_change(versions, exec.is_testnet, i, j) {
        lemma_change_counts(versions, exec.is_testnet, j);
    }
    let d = lemma_boundary_of_change(exec, starts, versions, i, j);
    lemma_history_answers(exec, events, epochs, versions, replies@, checkpoints, d - 1);
    lemma_history_answers(exec, events, epochs, versions, replies@, checkpoints, d);
    assert(replies@[d - 1] is Ok && replies@[d] is Ok);
    if is_next_change(versions, exec.is_testnet, i, j) && is_left_behind(
        versions,
        exec.is_testnet,
        i,
        versions[i],
    ) {
        lemma_last_closed_range(history, replies@, history.boundaries.len() - 1, d);
        assert(history.closed_range(replies@, d).epoch_start == epochs[i]);
    }
}

/// A finished history begins with what is known without events: protocol version 1 began with
/// epoch 0 and checkpoint 0 and came with the transaction with which the network began. On the
/// test network it lasted until epoch 741, and version 2 began with epoch 742 and came with the
/// transaction that brought safe mode. The last of these versions lasts until the first
/// change that an event tells of, or until the last event.
pub proof fn law_history_begins_before_the_events(
    exec: &LocalExec,
    events: Vec<SuiEvent>,
    epochs: Seq<u64>,
    versions: Seq<u64>,
    replies: Vec<TransactionReply>,
    checkpoints: spec_fn(TransactionDigest) -> u64,
    ranges: BTreeMap<u64, ProtocolVersionSummary>,
    j: int,
)
    requires
        all_say(events@, epochs, versions),
        exec.replies_fit(events@, replies@),
        history_answered(exec, events, replies@, checkpoints),
        call_ensures(
            LocalExec::protocol_ver_to_epoch_map,
            (exec, &Some(Ok::<_, LocalExecError>(events)), &replies),
            Step::Done(Ok(ranges)),
        ),
    ensures
        exec.is_testnet && (versions.len() > 0 ==> versions.last() != 1) ==> checkpoints(
            exec.params.safe_mode_tx,
        ) > 0 && ranges@.contains_pair(
            1,
            ProtocolVersionSummary {
                protocol_version: 1,
                epoch_start: 0,
                epoch_end: 741,
                checkpoint_start: 0,
                checkpoint_end: (checkpoints(exec.params.safe_mode_tx) - 1) as u64,
                epoch_change_tx: exec.params.testnet_genesis_tx,
            },
        ),
        is_next_change(versions, exec.is_testnet, -1, j) && is_left_behind(
            versions,
            exec.is_testnet,
            -1,
            if exec.is_testnet {
                2
            } else {
                1
            },
        ) ==> epochs[j] > 0 && checkpoints(events@[j].tx_digest) > 0 && if exec.is_testnet {
            ranges@.contains_pair(
                2,
                ProtocolVersionSummary {
                    protocol_version: 2,
                    epoch_start: 742,
                    epoch_end: (epochs[j] - 1) as u64,
                    checkpoint_start: checkpoints(exec.params.safe_mode_tx),
                    checkpoint_end: (checkpoints(events@[j].tx_digest) - 1) as u64,
                    epoch_change_tx: exec.params.safe_mode_tx,
                },
            )
        } else {
            ranges@.contains_pair(
                1,
                ProtocolVersionSummary {
                    protocol_version: 1,
                    epoch_start: 0,
                    epoch_end: (epochs[j] - 1) as u64,
                    checkpoint_start: 0,
                    checkpoint_end: (checkpoints(events@[j].tx_digest) - 1) as u64,
                    epoch_change_tx: exec.genesis_tx,
                },
            )
        },
        (forall|k: int| !(#[trigger] tells_change(versions, exec.is_testnet, k)))
            ==> ranges@.contains_pair(
            if versions.len() > 0 {
                versions.last()
            } else if exec.is_testnet {
                2
            } else {
                1
            },
            ProtocolVersionSummary {
                protocol_version: if versions.len() > 0 {
                    versions.last()
                } else if exec.is_testnet {
                    2
                } else {
                    1
                },
                epoch_start: if exec.is_testnet {
                    742
                } else {
                    0
                },
                epoch_end: if versions.len() > 0 {
                    epochs.last()
                } else if exec.is_testnet {
                    742
                } else {
                    0
                },
                checkpoint_start: if exec.is_testnet {
                    checkpoints(exec.params.safe_mode_tx)
                } else {
                    0
                },
                checkpoint_end: checkpoints(
                    if versions.len() > 0 {
                        events@.last().tx_digest
                    } else if exec.is_testnet {
                        exec.params.safe_mode_tx
                    } else {
                        exec.genesis_tx
                    },
                ),
                epoch_change_tx: if exec.is_testnet {
                    exec.params.safe_mode_tx
                } else {
                    exec.genesis_tx
                },
            },
        ),
{
    let starts = said_starts(events@, epochs, versions);
    let history = exec.version_history(starts);
    let m = exec.initial_boundaries().len() as int;
    let last = history.boundaries.len() - 1;
    lemma_finished_history(exec, events, epochs, versions, replies, ranges);
    if is_next_change(versions, exec.is_testnet, -1, j) {
        lemma_change_counts(versions, exec.is_testnet, j);
    }
    lemma_boundaries_begin(exec, starts, versions, j);
    lemma_history_answers(exec, events, epochs, versions, replies@, checkpoints, 0);
    lemma_history_answers(exec, events, epochs, versions, replies@, checkpoints, m - 1);
    assert(replies@[0] is Ok && replies@[m - 1] is Ok);
    if exec.is_testnet && (versions.len() > 0 ==> versions.last() != 1) {
        lemma_last_closed_range(history, replies@, last, 0);
    }
    if is_next_change(versions, exec.is_testnet, -1, j) && is_left_behind(
        versions,
        exec.is_testnet,
        -1,
        if exec.is_testnet {
            2
        } else {
            1
        },
    ) {
        lemma_last_closed_range(history, replies@, last, m - 1);
    }
}

/// A finished history holds no other protocol versions than 1, on the test network 2, and
/// those that events say.
pub proof fn law_history_holds_nothing_else(
    exec: &LocalExec,
    events: Vec<SuiEvent>,
    epochs: Seq<u64>,
    versions: Seq<u64>,
    replies: Vec<TransactionReply>,
    ranges: BTreeMap<u64, ProtocolVersionSummary>,
    version: u64,
)
    requires
        all_say(events@, epochs, versions),
        exec.replies_fit(events@, replies@),
        call_ensures(
            LocalExec::protocol_ver_to_epoch_map,
            (exec, &Some(Ok::<_, LocalExecError>(events)), &replies),
            Step::Done(Ok(ranges)),
        ),
        ranges@.contains_key(version),
    ensures
        version == 1 || (exec.is_testnet && version == 2) || versions.contains(version),
        ranges@[version].protocol_version == version,
{
    let starts = said_starts(events@, epochs, versions);
    let history = exec.version_history(starts);
    let initial = exec.initial_boundaries();
    let m = initial.len() as int;
    let last = history.boundaries.len() - 1;
    lemma_said_starts(events@, epochs, versions);
    let places = lemma_places(starts, exec.is_testnet, initial.last().version);
    let changes = version_changes(starts, exec.is_testnet, initial.last().version);
    if version == history.end.version {
        if versions.len() > 0 {
            assert(versions[versions.len() - 1] == version);
        }
    } else {
        lemma_closed_range_keys(history, replies@, last, version);
        lemma_ranges_are_labelled(history, replies@, last, version);
        let d = choose|d: int|
            0 <= d < last && (#[trigger] history.boundaries[d]).version == version;
        if d >= m {
            lemma_place(starts, exec.is_testnet, initial.last().version, places, d - m, d - m);
            assert(versions[places[d - m]] == version);
        }
    }
}

proof fn lemma_ranges_are_labelled(
    history: VersionHistory,
    replies: Seq<TransactionReply>,
    n: int,
    version: u64,
)
    requires
        history.closed_ranges(replies, n).contains_key(version),
    ensures
        history.closed_ranges(replies, n)[version].protocol_version == version,
    decreases n,
{
    if n > 0 && version != history.boundaries[n - 1].version {
        lemma_ranges_are_labelled(history, replies, n - 1, version);
    }
}

/// Where epochs come in the order of time and protocol versions do not go back, a session with
/// the finished history gives for the epoch of each event that counts the protocol version
/// that the event says.
pub proof fn law_the_version_of_each_epoch_is_what_its_event_says(
    exec: &LocalExec,
    events: Vec<SuiEvent>,
    epochs: Seq<u64>,
    versions: Seq<u64>,
    replies: Vec<TransactionReply>,
    ranges: BTreeMap<u64, ProtocolVersionSummary>,
    filled: &LocalExec,
    i: int,
    r: Result<u64, LocalExecError>,
)
    requires
        all_say(events@, epochs, versions),
        exec.replies_fit(events@, replies@),
        call_ensures(
            LocalExec::protocol_ver_to_epoch_map,
            (exec, &Some(Ok::<_, LocalExecError>(events)), &replies),
            Step::Done(Ok(ranges)),
        ),
        forall|k: int, l: int|
            0 <= k < l < epochs.len() ==> #[trigger] epochs[k] < #[trigger] epochs[l],
        forall|k: int, l: int|
            0 <= k < l < versions.len() ==> #[trigger] versions[k] <= #[trigger] versions[l],
        forall|k: int|
            0 <= k < versions.len() && counts(exec.is_testnet, #[trigger] versions[k])
                ==> versions[k] > 0 && epochs[k] > if exec.is_testnet {
                742u64
            } else {
                0u64
            },
        filled.protocol_version_epoch_table == ranges,
        0 <= i < versions.len(),
        counts(exec.is_testnet, versions[i]),
        call_ensures(LocalExec::get_protocol_config, (filled, epochs[i]), r),
    ensures
        r == Ok::<_, LocalExecError>(versions[i]),
{
    let starts = said_starts(events@, epochs, versions);
    let history = exec.version_history(starts);
    let initial = exec.initial_boundaries();
    let m = initial.len() as int;
    let last = history.boundaries.len() - 1;
    lemma_finished_history(exec, events, epochs, versions, replies, ranges);
    let places = lemma_places(starts, exec.is_testnet, initial.last().version);
    let changes = version_changes(starts, exec.is_testnet, initial.last().version);
    assert forall|k: int, l: int| 0 <= k < l < starts.len() implies (#[trigger] starts[k]).epoch < (
    #[trigger] starts[l]).epoch && starts[k].version <= starts[l].version by {
        assert(epochs[k] < epochs[l]);
        assert(versions[k] <= versions[l]);
    }
    assert forall|k: int|
        0 <= k < starts.len() && !is_ignored(#[trigger] starts[k], exec.is_testnet) implies
        initial.last().epoch < starts[k].epoch && initial.last().version <= starts[k].version by {
        assert(counts(exec.is_testnet, versions[k]));
    }
    law_rising_starts_go_up(exec, starts);
    let end = versions.len() - 1;
    if i < end {
        assert(versions[i] <= versions[end]);
    }
    assert(!is_ignored(starts[end], exec.is_testnet));
    law_history_ends_with_last_boundary(exec, starts);
    assert(!is_ignored(starts[i], exec.is_testnet));
    let known = initial.last().version;
    lemma_place(starts, exec.is_testnet, known, places, 0, 0);
    let b = if i < place_behind(starts, places, -1) {
        -1
    } else {
        lemma_segment(starts, places, places.len() - 1, i)
    };
    lemma_place(starts, exec.is_testnet, known, places, b, b);
    lemma_place(starts, exec.is_testnet, known, places, b + 1, b + 1);
    lemma_between_places(starts, exec.is_testnet, known, places, b, i);
    assert(history.boundaries[m + b].version == versions[i]);
    if b >= 0 && places[b] < i {
        assert(epochs[places[b]] < epochs[i]);
    }
    if m + b < last {
        assert(epochs[i] < epochs[places[b + 1]]);
    }
    law_table_gives_version_in_force(history, replies@, m + b, epochs[i]);
    lemma_config(filled, epochs[i], versions[i], r);
}

proof fn lemma_config(
    exec: &LocalExec,
    epoch: u64,
    version: u64,
    r: Result<u64, LocalExecError>,
)
    requires
        LocalExec::is_version_at(exec.protocol_version_epoch_table@, epoch, version),
        call_ensures(LocalExec::get_protocol_config, (exec, epoch), r),
    ensures
        r == Ok::<_, LocalExecError>(version),
{
}

/// The history is not finished before the node has answered: the events are asked for first,
/// with the oldest first, and what the node cannot answer ends it.
pub proof fn law_history_asks_for_the_events_first(
    exec: &LocalExec,
    events_reply: Option<EventsReply>,
    replies: Vec<TransactionReply>,
    r: Step<Result<BTreeMap<u64, ProtocolVersionSummary>, LocalExecError>>,
)
    requires
        events_reply matches Some(Ok(events)) ==> exec.replies_fit(events@, replies@),
        call_ensures(
            LocalExec::protocol_ver_to_epoch_map,
            (exec, &events_reply, &replies),
            r,
        ),
    ensures
        events_reply is None ==> r == Step::<
            Result<BTreeMap<u64, ProtocolVersionSummary>, LocalExecError>,
        >::Ask(Request::EpochChangeEvents { reverse: false }),
        events_reply matches Some(Err(err)) ==> r == Step::Done(
            Err::<BTreeMap<u64, ProtocolVersionSummary>, _>(err),
        ),
        events_reply matches Some(Ok(_)) && replies@.len() > 0 && replies@.last() is Err ==> r
            == Step::Done(
            Err::<BTreeMap<u64, ProtocolVersionSummary>, _>(replies@.last()->Err_0),
        ),
        r is Ask ==> (events_reply matches Some(Ok(events)) ==> replies@.len() <= events@.len()
            + 1),
{
    if let Some(Ok(events)) = events_reply {
        lemma_changes_are_no_more_than_events(exec, events@);
    }
}

proof fn lemma_changes_are_no_more_than_events(exec: &LocalExec, events: Seq<SuiEvent>)
    ensures
        exec.version_history(leading_starts(events)).boundaries.len() <= events.len() + 2,
{
    let starts = leading_starts(events);
    lemma_leading_starts_are_no_more(events);
    let initial = exec.initial_boundaries().last().version;
    let places = lemma_places(starts, exec.is_testnet, initial);
    lemma_place(starts, exec.is_testnet, initial, places, 0, 0);
    lemma_places_are_no_more(starts, exec.is_testnet, initial, places, places.len() as int);
}

proof fn lemma_leading_starts_are_no_more(events: Seq<SuiEvent>)
    ensures
        leading_starts(events).len() <= events.len(),
    decreases events.len(),
{
    if events.len() > 0 {
        lemma_leading_starts_are_no_more(events.drop_last());
    }
}

/// An event whose payload is no object ends the history: it is the error, once the changes that
/// the events before it tell of have been looked up, and there is no history in any case.
pub proof fn law_an_unreadable_event_ends_the_history(
    exec: &LocalExec,
    events: Vec<SuiEvent>,
    epochs: Seq<u64>,
    versions: Seq<u64>,
    replies: Vec<TransactionReply>,
    n: int,
    r: Step<Result<BTreeMap<u64, ProtocolVersionSummary>, LocalExecError>>,
)
    requires
        0 <= n < events@.len(),
        all_say(events@.take(n), epochs, versions),
        json_members(*events@[n].parsed_json) is None,
        exec.replies_fit(events@, replies@),
        call_ensures(
            LocalExec::protocol_ver_to_epoch_map,
            (exec, &Some(Ok::<_, LocalExecError>(events)), &replies),
            r,
        ),
    ensures
        !(r matches Step::Done(Ok(_))),
        (replies@.len() > 0 ==> replies@.last() is Ok) ==> (r matches Step::Done(Err(err)) ==> err
            == (LocalExecError::UnexpectedEventFormat { event: events@[n] })),
        replies@.len() > n + 1 ==> !(r is Ask),
{
    lemma_said_starts(events@.take(n), epochs, versions);
    let more = events@.take(n + 1);
    assert(more.drop_last() =~= events@.take(n));
    assert(more.last() == events@[n]);
    assert(leading_starts(more) == leading_starts(events@.take(n)));
    lemma_leading_starts_stop(events@, n + 1);
    let starts = leading_starts(events@);
    let initial = exec.initial_boundaries().last().version;
    let places = lemma_places(starts, exec.is_testnet, initial);
    lemma_place(starts, exec.is_testnet, initial, places, 0, 0);
    lemma_places_are_no_more(starts, exec.is_testnet, initial, places, places.len() as int);
}

/// Replies fit the events only if all but the last are answers, and each answer names a checkpoint.
/// Where no reply has come yet, readable events always fit.
pub proof fn law_fitting_replies_are_told(
    exec: &LocalExec,
    events: &Vec<SuiEvent>,
    epochs: Seq<u64>,
    versions: Seq<u64>,
    replies: &Vec<TransactionReply>,
    i: int,
    r: bool,
)
    requires
        call_ensures(LocalExec::do_replies_fit, (exec, events, replies), r),
    ensures
        0 <= i < replies@.len() - 1 && replies@[i] is Err ==> !r,
        0 <= i < replies@.len() ==> (replies@[i] matches Ok(record) ==> (record.checkpoint is None
            ==> !r)),
        replies@.len() > events@.len() + 2 ==> !r,
        replies@.len() == 0 && all_say(events@, epochs, versions) ==> r,
{
    lemma_changes_are_no_more_than_events(exec, events@);
    if replies@.len() == 0 && all_say(events@, epochs, versions) {
        lemma_said_starts(events@, epochs, versions);
    }
}

} // verus!
