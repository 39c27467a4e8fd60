//! Events of the system package, which mark where each epoch starts.
use crate::error::LocalExecError;
use crate::text::{
    decimal, law_written_numbers_are_read, lemma_other_members, lemma_written_number, number_in,
    unquoted, written,
};
use crate::types::{EventCursor, TransactionDigest};
use std::sync::Arc;
use vstd::prelude::*;

verus! {

/// A JSON value of `serde_json`.
#[verifier::external_type_specification]
#[verifier::external_body]
pub struct ExJsonValue(serde_json::Value);

/// The members of a JSON value: each key, with the JSON text of its value. Only an object
/// has members.
pub uninterp spec fn json_members(value: serde_json::Value) -> Option<Map<Seq<char>, Seq<char>>>;

/// Whether a JSON value is an object.
///
/// Calls `serde_json::Value::is_object`. Trusted: it tells whether the value is a JSON object,
/// which is whether `json_members` has members for it.
#[verifier::external_body]
fn is_json_object(value: &serde_json::Value) -> (r: bool)
    ensures
        r == (json_members(*value) is Some),
{
    value.is_object()
}

/// The JSON text of one member of a JSON value.
///
/// Calls `serde_json::Value::get`, and `to_string` on the value that it finds.
/// Trusted: `get` finds a value exactly if the key is among the members of an
/// object, and the text is the one that `json_members` has for that key.
#[verifier::external_body]
fn json_member(value: &serde_json::Value, key: &str) -> (r: Option<String>)
    ensures
        match r {
            Some(text) => json_members(*value) is Some && json_members(*value)->0.contains_key(key@)
                && text@ == json_members(*value)->0[key@],
            None => json_members(*value) is Some ==> !json_members(*value)->0.contains_key(key@),
        },
{
    value.get(key).map(|member| member.to_string())
}

/// All events of one type, or why they could not be had.
pub type EventsReply = Result<Vec<SuiEvent>, LocalExecError>;

/// Some of the events that were asked for, and behind which event to ask for more, if
/// there are more.
#[derive(Debug, PartialEq)]
pub struct EventPage {
    pub data: Vec<SuiEvent>,
    pub next: Option<EventCursor>,
}

/// An event and the transaction that emitted it.
#[derive(Debug, PartialEq)]
pub struct SuiEvent {
    pub tx_digest: TransactionDigest,
    /// The payload.
    pub parsed_json: Arc<serde_json::Value>,
}

impl Clone for SuiEvent {
    fn clone(&self) -> (r: Self)
        ensures
            r == *self,
    {
        SuiEvent { tx_digest: self.tx_digest, parsed_json: self.parsed_json.clone() }
    }
}

/// A copy of a list of events.
pub fn clone_events(events: &Vec<SuiEvent>) -> (r: Vec<SuiEvent>)
    ensures
        r@ == events@,
{
    let mut out: Vec<SuiEvent> = Vec::new();
    let mut i: usize = 0;
    while i < events.len()
        invariant
            i <= events.len(),
            out@ == events@.take(i as int),
        decreases events.len() - i,
    {
        out.push(events[i].clone());
        i += 1;
        assert(events@.take(i as int) =~= events@.take(i - 1).push(events@[i - 1]));
    }
    assert(events@.take(i as int) =~= events@);
    out
}

impl SuiEvent {
    /// The number in one member of the payload.
    pub open spec fn number(&self, key: Seq<char>) -> Option<u64> {
        match json_members(*self.parsed_json) {
            Some(members) => if members.contains_key(key) {
                decimal(unquoted(members[key]))
            } else {
                None
            },
            None => None,
        }
    }

    /// Whether the payload is a JSON object.
    pub open spec fn has_members(&self) -> bool {
        json_members(*self.parsed_json) is Some
    }

    /// Whether the payload, if it is a JSON object, has an epoch and a protocol version.
    pub open spec fn readable(&self) -> bool {
        self.has_members() ==> self.number("epoch"@) is Some && self.number(
            "protocol_version"@,
        ) is Some
    }

    /// Whether the event says that an epoch starts.
    pub open spec fn starts_epoch(&self, epoch: u64) -> bool {
        self.number("epoch"@) == Some(epoch)
    }

    /// What the event says: the epoch that starts and its protocol version.
    pub open spec fn epoch_and_version(&self) -> Result<(u64, u64), LocalExecError> {
        if self.has_members() {
            Ok((self.number("epoch"@)->0, self.number("protocol_version"@)->0))
        } else {
            Err(LocalExecError::UnexpectedEventFormat { event: *self })
        }
    }

    /// Whether the payload is a JSON object.
    pub fn is_object(&self) -> (r: bool)
        ensures
            r == self.has_members(),
    {
        is_json_object(&self.parsed_json)
    }

    /// The number in one member of the payload, if there is one.
    pub fn number_of(&self, key: &str) -> (r: Option<u64>)
        ensures
            r == self.number(key@),
    {
        match json_member(&self.parsed_json, key) {
            Some(text) => number_in(text.as_str()),
            None => None,
        }
    }

    /// Whether `extract_epoch_and_version` can read the event.
    pub fn is_readable(&self) -> (r: bool)
        ensures
            r == self.readable(),
    {
        !self.is_object() || (self.number_of("epoch").is_some() && self.number_of(
            "protocol_version",
        ).is_some())
    }
}

/// The epoch that an event starts and its protocol version.
pub fn extract_epoch_and_version(ev: SuiEvent) -> (r: Result<(u64, u64), LocalExecError>)
    requires
        ev.readable(),
    ensures
        r == ev.epoch_and_version(),
{
    if ev.is_object() {
        let epoch: u64 = ev.number_of("epoch").unwrap();
        let version: u64 = ev.number_of("protocol_version").unwrap();
        return Ok((epoch, version));
    }
    Err(LocalExecError::UnexpectedEventFormat { event: ev })
}

/// Whether a search for the event that starts an epoch meets only readable
/// events on its way.
pub open spec fn searchable(events: Seq<SuiEvent>, epoch: u64) -> bool {
    forall|i: int|
        0 <= i < events.len() && (forall|j: int|
            0 <= j < i ==> !(#[trigger] events[j]).starts_epoch(epoch)) ==> (
        #[trigger] events[i]).readable()
}

/// The place of the first event that starts an epoch.
pub open spec fn is_first_start(events: Seq<SuiEvent>, epoch: u64, i: int) -> bool {
    &&& 0 <= i < events.len()
    &&& events[i].starts_epoch(epoch)
    &&& forall|j: int| 0 <= j < i ==> !(#[trigger] events[j]).starts_epoch(epoch)
}

/// Whether no event starts an epoch.
pub open spec fn no_start(events: Seq<SuiEvent>, epoch: u64) -> bool {
    forall|j: int| 0 <= j < events.len() ==> !(#[trigger] events[j]).starts_epoch(epoch)
}

/// Whether `find_epoch_start` can search the events.
pub fn is_searchable(events: &Vec<SuiEvent>, epoch: u64) -> (r: bool)
    ensures
        r == searchable(events@, epoch),
{
    let mut i: usize = 0;
    while i < events.len()
        invariant
            i <= events.len(),
            forall|j: int| 0 <= j < i ==> !(#[trigger] events@[j]).starts_epoch(epoch),
            forall|j: int| 0 <= j < i ==> (#[trigger] events@[j]).readable(),
        decreases events.len() - i,
    {
        if !events[i].is_readable() {
            assert(!events@[i as int].readable());
            return false;
        }
        match events[i].number_of("epoch") {
            Some(found) => {
                if found == epoch {
                    assert(events@[i as int].starts_epoch(epoch));
                    return true;
                }
            },
            None => {},
        }
        i += 1;
    }
    true
}

/// The place of the first event that starts an epoch, if one does.
pub fn find_epoch_start(events: &Vec<SuiEvent>, epoch: u64) -> (r: Option<usize>)
    requires
        searchable(events@, epoch),
    ensures
        match r {
            Some(i) => is_first_start(events@, epoch, i as int),
            None => no_start(events@, epoch),
        },
{
    let mut i: usize = 0;
    while i < events.len()
        invariant
            i <= events.len(),
            searchable(events@, epoch),
            forall|j: int| 0 <= j < i ==> !(#[trigger] events@[j]).starts_epoch(epoch),
        decreases events.len() - i,
    {
        assert(events@[i as int].readable());
        match extract_epoch_and_version(events[i].clone()) {
            Ok((found, _)) => {
                if found == epoch {
                    return Some(i);
                }
            },
            Err(_) => {},
        }
        i += 1;
    }
    None
}

/// Whether one member of the payload of an event is a number, written out in decimal
/// digits and perhaps in double quotes.
pub open spec fn says(ev: SuiEvent, key: Seq<char>, n: u64) -> bool {
    &&& json_members(*ev.parsed_json) matches Some(members)
    &&& members.contains_key(key)
    &&& members[key] == written(n as nat) || members[key] == seq!['"'] + written(n as nat)
        + seq!['"']
}

pub proof fn lemma_says(ev: SuiEvent, key: Seq<char>, n: u64)
    requires
        says(ev, key, n),
    ensures
        ev.number(key) == Some(n),
        ev.has_members(),
{
    lemma_written_number(n as nat);
    law_written_numbers_are_read(n as nat);
}

/// What an event says is read off it: the number in a member, and none where the payload is no
/// object or lacks the member.
pub proof fn law_members_are_read(ev: &SuiEvent, key: &str, n: u64, r: Option<u64>)
    requires
        call_ensures(SuiEvent::number_of, (ev, key), r),
    ensures
        says(*ev, key@, n) ==> r == Some(n),
        json_members(*ev.parsed_json) is None ==> r is None,
        json_members(*ev.parsed_json) matches Some(members) && !members.contains_key(key@)
            ==> r is None,
{
    if says(*ev, key@, n) {
        lemma_says(*ev, key@, n);
    }
}

/// The epoch and the protocol version that an event says are what is extracted from it; an
/// event whose payload is no object is an error.
pub proof fn law_epoch_and_version_are_extracted(
    ev: SuiEvent,
    epoch: u64,
    version: u64,
    r: Result<(u64, u64), LocalExecError>,
)
    requires
        call_ensures(extract_epoch_and_version, (ev,), r),
    ensures
        says(ev, "epoch"@, epoch) && says(ev, "protocol_version"@, version) ==> r == Ok::<
            _,
            LocalExecError,
        >((epoch, version)),
        json_members(*ev.parsed_json) is None ==> r == Err::<(u64, u64), _>(
            LocalExecError::UnexpectedEventFormat { event: ev },
        ),
{
    if says(ev, "epoch"@, epoch) && says(ev, "protocol_version"@, version) {
        lemma_says(ev, "epoch"@, epoch);
        lemma_says(ev, "protocol_version"@, version);
    }
}

/// Whether each event of a list says which epoch starts and under which protocol version.
pub open spec fn all_say(events: Seq<SuiEvent>, epochs: Seq<u64>, versions: Seq<u64>) -> bool {
    &&& epochs.len() == events.len()
    &&& versions.len() == events.len()
    &&& forall|i: int| 0 <= i < events.len() ==> says(#[trigger] events[i], "epoch"@, epochs[i])
    &&& forall|i: int|
        0 <= i < events.len() ==> says(#[trigger] events[i], "protocol_version"@, versions[i])
}

pub proof fn lemma_all_say(events: Seq<SuiEvent>, epochs: Seq<u64>, versions: Seq<u64>)
    requires
        all_say(events, epochs, versions),
    ensures
        forall|i: int|
            0 <= i < events.len() ==> (#[trigger] events[i]).number("epoch"@) == Some(epochs[i]),
        forall|i: int|
            0 <= i < events.len() ==> (#[trigger] events[i]).number("protocol_version"@) == Some(
                versions[i],
            ),
        forall|i: int| 0 <= i < events.len() ==> (#[trigger] events[i]).has_members(),
{
    assert forall|i: int| 0 <= i < events.len() implies (#[trigger] events[i]).number("epoch"@)
        == Some(epochs[i]) && events[i].number("protocol_version"@) == Some(versions[i])
        && events[i].has_members() by {
        lemma_says(events[i], "epoch"@, epochs[i]);
        lemma_says(events[i], "protocol_version"@, versions[i]);
    }
}

/// The first event that says that an epoch starts is found, and only that one: no event before
/// it says so, and where none is found no event says so.
pub proof fn law_epoch_starts_are_found(
    events: &Vec<SuiEvent>,
    epochs: Seq<u64>,
    versions: Seq<u64>,
    epoch: u64,
    r: Option<usize>,
)
    requires
        all_say(events@, epochs, versions),
        call_ensures(find_epoch_start, (events, epoch), r),
    ensures
        match r {
            Some(i) => i < events@.len() && epochs[i as int] == epoch && !epochs.take(
                i as int,
            ).contains(epoch),
            None => !epochs.contains(epoch),
        },
{
    lemma_all_say(events@, epochs, versions);
    assert(searchable(events@, epoch));
    match r {
        Some(i) => {
            let before = epochs.take(i as int);
            if before.contains(epoch) {
                let j = before.index_of(epoch);
                assert(!events@[j].starts_epoch(epoch));
            }
        },
        None => {
            if epochs.contains(epoch) {
                let j = epochs.index_of(epoch);
                assert(!events@[j].starts_epoch(epoch));
            }
        },
    }
}

/// A member that is no number, for it holds a character other than digits, double quotes and
/// plus signs, is not read, and neither is an empty one.
pub proof fn law_other_members_are_not_read(
    ev: &SuiEvent,
    key: &str,
    members: Map<Seq<char>, Seq<char>>,
    j: int,
    r: Option<u64>,
)
    requires
        json_members(*ev.parsed_json) == Some(members),
        members.contains_key(key@),
        members[key@].len() == 0 || (0 <= j < members[key@].len() && !('0' <= members[key@][j]
            <= '9') && members[key@][j] != '+' && members[key@][j] != '"'),
        call_ensures(SuiEvent::number_of, (ev, key), r),
    ensures
        r is None,
{
    lemma_other_members(members[key@], j);
}

/// Which events can be read is told by their payloads: one that is no object counts as readable,
/// and of an object both the epoch and the protocol version must be there.
pub proof fn law_readable_events_are_told(
    ev: &SuiEvent,
    epoch: u64,
    version: u64,
    is_object: bool,
    is_readable: bool,
)
    requires
        call_ensures(SuiEvent::is_object, (ev,), is_object),
        call_ensures(SuiEvent::is_readable, (ev,), is_readable),
    ensures
        is_object == (json_members(*ev.parsed_json) is Some),
        !is_object ==> is_readable,
        says(*ev, "epoch"@, epoch) && says(*ev, "protocol_version"@, version) ==> is_readable,
        json_members(*ev.parsed_json) matches Some(members) && !(members.contains_key("epoch"@)
            && members.contains_key("protocol_version"@)) ==> !is_readable,
{
    if says(*ev, "epoch"@, epoch) && says(*ev, "protocol_version"@, version) {
        lemma_says(*ev, "epoch"@, epoch);
        lemma_says(*ev, "protocol_version"@, version);
    }
}

/// Events can be searched for the start of an epoch if all of them up to the one that starts it, or
/// all of them if none does, say what they should. They cannot if one of these is an object that
/// does not.
pub proof fn law_searchable_events_are_told(
    events: &Vec<SuiEvent>,
    epochs: Seq<u64>,
    versions: Seq<u64>,
    epoch: u64,
    n: int,
    r: bool,
)
    requires
        0 <= n <= events@.len(),
        all_say(events@.take(n), epochs, versions),
        call_ensures(is_searchable, (events, epoch), r),
    ensures
        n == events@.len() || epochs.contains(epoch) ==> r,
        n < events@.len() && !epochs.contains(epoch) ==> (json_members(
            *events@[n].parsed_json,
        ) matches Some(members) ==> (!(members.contains_key("epoch"@) && members.contains_key(
            "protocol_version"@,
        )) ==> !r)),
{
    let read = events@.take(n);
    lemma_all_say(read, epochs, versions);
    if n == events@.len() || epochs.contains(epoch) {
        assert forall|i: int|
            0 <= i < events@.len() && (forall|j: int|
                0 <= j < i ==> !(#[trigger] events@[j]).starts_epoch(epoch)) implies (
        #[trigger] events@[i]).readable() by {
            if i < n {
                assert(read[i] == events@[i]);
            } else {
                let j = epochs.index_of(epoch);
                assert(read[j] == events@[j]);
                assert(events@[j].starts_epoch(epoch));
            }
        }
    } else {
        assert forall|j: int| 0 <= j < n implies !(#[trigger] events@[j]).starts_epoch(epoch) by {
            assert(read[j] == events@[j]);
            if events@[j].starts_epoch(epoch) {
                assert(epochs[j] == epoch);
            }
        }
        if r {
            assert(events@[n].readable());
        }
    }
}

/// A copy of events has the same events in the same order.
pub proof fn law_copies_of_events_are_the_same(events: &Vec<SuiEvent>, r: Vec<SuiEvent>, i: int)
    requires
        call_ensures(clone_events, (events,), r),
    ensures
        r@.len() == events@.len(),
        0 <= i < events@.len() ==> r@[i] == events@[i],
{
}

/// Whether a search for the start of an epoch passes over an event: its payload is no object, or it
/// says that another epoch starts.
pub open spec fn is_passed_over(ev: SuiEvent, epoch: u64) -> bool {
    ||| json_members(*ev.parsed_json) is None
    ||| exists|other: u64, version: u64| #[trigger]
        says(ev, "epoch"@, other) && #[trigger] says(ev, "protocol_version"@, version) && other
            != epoch
}

/// Whether a search for the start of an epoch comes to an event: it passes over all events before,
/// and the event says that the epoch starts. What stands behind it does not matter.
pub open spec fn search_comes_to(events: Seq<SuiEvent>, epoch: u64, i: int) -> bool {
    &&& 0 <= i < events.len()
    &&& says(events[i], "epoch"@, epoch)
    &&& exists|version: u64| #[trigger] says(events[i], "protocol_version"@, version)
    &&& forall|j: int| 0 <= j < i ==> is_passed_over(#[trigger] events[j], epoch)
}

/// Whether a search for the start of an epoch passes over all events.
pub open spec fn search_comes_to_nothing(events: Seq<SuiEvent>, epoch: u64) -> bool {
    forall|j: int| 0 <= j < events.len() ==> is_passed_over(#[trigger] events[j], epoch)
}

proof fn lemma_passed_over(ev: SuiEvent, epoch: u64)
    requires
        is_passed_over(ev, epoch),
    ensures
        ev.readable(),
        !ev.starts_epoch(epoch),
{
    if ev.has_members() {
        let (other, version) = choose|other: u64, version: u64| #[trigger]
            says(ev, "epoch"@, other) && #[trigger] says(ev, "protocol_version"@, version) && other
                != epoch;
        lemma_says(ev, "epoch"@, other);
        lemma_says(ev, "protocol_version"@, version);
    }
}

/// A search finds what it comes to.
pub proof fn lemma_search(events: Seq<SuiEvent>, epoch: u64, i: int)
    ensures
        search_comes_to(events, epoch, i) ==> searchable(events, epoch) && is_first_start(
            events,
            epoch,
            i,
        ),
        search_comes_to_nothing(events, epoch) ==> searchable(events, epoch) && no_start(
            events,
            epoch,
        ),
{
    if search_comes_to(events, epoch, i) {
        let version = choose|version: u64| #[trigger]
            says(events[i], "protocol_version"@, version);
        lemma_says(events[i], "epoch"@, epoch);
        lemma_says(events[i], "protocol_version"@, version);
        assert forall|j: int| 0 <= j < i implies !(#[trigger] events[j]).starts_epoch(epoch)
            && events[j].readable() by {
            lemma_passed_over(events[j], epoch);
        }
        assert forall|k: int|
            0 <= k < events.len() && (forall|j: int|
                0 <= j < k ==> !(#[trigger] events[j]).starts_epoch(epoch)) implies (
        #[trigger] events[k]).readable() by {
            if k > i {
                assert(events[i].starts_epoch(epoch));
            }
        }
    }
    if search_comes_to_nothing(events, epoch) {
        assert forall|j: int| 0 <= j < events.len() implies !(#[trigger] events[j]).starts_epoch(
            epoch,
        ) && events[j].readable() by {
            lemma_passed_over(events[j], epoch);
        }
    }
}

/// The event that a search comes to is found, whatever stands behind it, and where it comes to
/// nothing none is.
pub proof fn law_a_search_finds_what_it_comes_to(
    events: &Vec<SuiEvent>,
    epoch: u64,
    i: int,
    can_search: bool,
)
    requires
        call_ensures(is_searchable, (events, epoch), can_search),
    ensures
        search_comes_to(events@, epoch, i) ==> can_search && forall|r: Option<usize>| #[trigger]
            call_ensures(find_epoch_start, (events, epoch), r) ==> r == Some(i as usize),
        search_comes_to_nothing(events@, epoch) ==> can_search && forall|r: Option<usize>|
            #[trigger]
            call_ensures(find_epoch_start, (events, epoch), r) ==> r is None,
{
    lemma_search(events@, epoch, i);
    if search_comes_to(events@, epoch, i) {
        assert forall|r: Option<usize>| #[trigger]
            call_ensures(find_epoch_start, (events, epoch), r) implies r == Some(i as usize) by {
            if let Some(k) = r {
                if k < i {
                    assert(!events@[k as int].starts_epoch(epoch));
                }
                if i < k {
                    assert(!events@[i].starts_epoch(epoch));
                }
            } else {
                assert(!events@[i].starts_epoch(epoch));
            }
        }
    }
    if search_comes_to_nothing(events@, epoch) {
        assert forall|r: Option<usize>| #[trigger]
            call_ensures(find_epoch_start, (events, epoch), r) implies r is None by {
            if let Some(k) = r {
                assert(!events@[k as int].starts_epoch(epoch));
            }
        }
    }
}

} // verus!
