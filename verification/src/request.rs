//! What a replay asks of a full node, and the form of a step that may ask.
use crate::types::{
    EventCursor, ObjectID, SequenceNumber, StructTag, StructTagView, TransactionDigest,
};
use vstd::prelude::*;

verus! {

/// A question to the node. Whoever runs a step puts the question and hands the
/// answer to the next step.
#[derive(Debug, PartialEq)]
pub enum Request {
    /// Objects at given versions.
    VersionedObjects(Vec<(ObjectID, SequenceNumber)>),
    /// Objects at their latest versions.
    LatestObjects(Vec<ObjectID>),
    /// The child objects that a transaction loaded, with their versions.
    LoadedChildObjects(TransactionDigest),
    /// A transaction, its outcome and its checkpoint.
    Transaction(TransactionDigest),
    /// The transactions of a checkpoint.
    CheckpointTransactions(u64),
    /// All events that start an epoch, newest first if `reverse` is set. The session gets
    /// them page by page.
    EpochChangeEvents { reverse: bool },
    /// A page of the events of one type, newest first if `reverse` is set: the first page, or
    /// the one behind an event.
    EventPage { struct_tag: StructTag, cursor: Option<EventCursor>, reverse: bool },
}

/// What a `Request` asks.
#[verifier::ext_equal]
pub enum RequestView {
    VersionedObjects(Seq<(ObjectID, SequenceNumber)>),
    LatestObjects(Seq<ObjectID>),
    LoadedChildObjects(TransactionDigest),
    Transaction(TransactionDigest),
    CheckpointTransactions(u64),
    EpochChangeEvents { reverse: bool },
    EventPage { struct_tag: StructTagView, cursor: Option<EventCursor>, reverse: bool },
}

impl View for Request {
    type V = RequestView;

    open spec fn view(&self) -> RequestView {
        match self {
            Request::VersionedObjects(objs) => RequestView::VersionedObjects(objs@),
            Request::LatestObjects(ids) => RequestView::LatestObjects(ids@),
            Request::LoadedChildObjects(tx) => RequestView::LoadedChildObjects(*tx),
            Request::Transaction(tx) => RequestView::Transaction(*tx),
            Request::CheckpointTransactions(id) => RequestView::CheckpointTransactions(*id),
            Request::EpochChangeEvents { reverse } => RequestView::EpochChangeEvents {
                reverse: *reverse,
            },
            Request::EventPage { struct_tag, cursor, reverse } => RequestView::EventPage {
                struct_tag: struct_tag@,
                cursor: *cursor,
                reverse: *reverse,
            },
        }
    }
}

/// How far a step came: it needs an answer first, or it is done.
#[derive(Debug, PartialEq)]
pub enum Step<T> {
    Ask(Request),
    Done(T),
}

impl<T> Step<T> {
    /// The step is to ask for something.
    pub open spec fn asks(&self, request: RequestView) -> bool {
        self matches Step::Ask(asked) && asked@ == request
    }
}

/// A copy of a list of plain values.
pub fn copied<T: Copy>(values: &Vec<T>) -> (r: Vec<T>)
    ensures
        r@ == values@,
{
    let mut out: Vec<T> = Vec::new();
    let mut i: usize = 0;
    while i < values.len()
        invariant
            i <= values.len(),
            out@ == values@.take(i as int),
        decreases values.len() - i,
    {
        out.push(values[i]);
        i += 1;
        assert(values@.take(i as int) =~= values@.take(i - 1).push(values@[i - 1]));
    }
    assert(values@.take(i as int) =~= values@);
    out
}

/// A copy of plain values has the same values in the same order.
pub proof fn law_copies_are_the_same<T: Copy>(values: &Vec<T>, r: Vec<T>, i: int)
    requires
        call_ensures(copied::<T>, (values,), r),
    ensures
        r@.len() == values@.len(),
        0 <= i < values@.len() ==> r@[i] == values@[i],
{
}

} // verus!
