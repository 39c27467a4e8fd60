//! Getting objects from a node: when to ask again, and what is kept of the answers.
use crate::error::{ErrorText, LocalExecError};
use crate::inputs::lemma_filter_contains_it;
use crate::listing::{law_every_map_has_its_listing, listing};
use crate::local_exec::LocalExec;
use crate::packages::{lemma_filters_agree, lemma_system_packages};
use crate::request::{copied, Request, RequestView, Step};
use crate::storage::{
    is_last_package, is_last_with_id, is_last_with_key, law_caching_leaves_live_objects,
    law_stored_objects_are_found, law_storing_keeps_other_entries, none_with_id,
};
use crate::types::{clone_objects, same_id, Object, ObjectID, SequenceNumber};
use std::sync::Arc;
use vstd::prelude::*;

verus! {

broadcast use {
    vstd::std_specs::btree::group_btree_axioms,
    vstd::laws_cmp::group_laws_cmp,
};

/// What a node answers to a request for objects.
pub type ObjectsReply = Result<Vec<Object>, LocalExecError>;

/// The objects to download.
#[derive(Debug, PartialEq, Eq)]
pub enum Wanted {
    Versioned(Vec<(ObjectID, SequenceNumber)>),
    Latest(Vec<ObjectID>),
}

impl Wanted {
    pub open spec fn request(&self) -> RequestView {
        match self {
            Wanted::Versioned(objs) => RequestView::VersionedObjects(objs@),
            Wanted::Latest(ids) => RequestView::LatestObjects(ids@),
        }
    }
}

/// A download in progress. A request that times out is put again after a pause,
/// until no retries are left.
#[derive(Debug, PartialEq, Eq)]
pub struct Download {
    pub wanted: Wanted,
    /// How many retries are left; negative once all have been used up.
    pub retries_left: i64,
    pub sleep_period_ms: u64,
}

/// What a download does next.
#[derive(Debug, PartialEq)]
pub enum DownloadStep {
    /// Put the request.
    Fetch(Request),
    /// Wait for so many milliseconds.
    Sleep(u64),
    Done(ObjectsReply),
}

/// The node did not answer in time.
pub open spec fn is_timeout(reply: ObjectsReply) -> bool {
    reply == Err::<Vec<Object>, LocalExecError>(LocalExecError::SuiRpcRequestTimeout)
}

impl Download {
    /// A download that has just begun.
    pub open spec fn is_fresh(&self, request: RequestView, exec: &LocalExec) -> bool {
        &&& self.wanted.request() == request
        &&& self.retries_left == exec.params.num_retries_for_timeout
        &&& self.sleep_period_ms == exec.params.sleep_period_for_timeout_ms
    }

    /// What to do before the next reply: put the request, or give up.
    pub fn poll(&self) -> (r: DownloadStep)
        ensures
            match r {
                DownloadStep::Fetch(request) => self.retries_left >= 0 && request@
                    == self.wanted.request(),
                DownloadStep::Sleep(_) => false,
                DownloadStep::Done(reply) => self.retries_left < 0 && is_timeout(reply),
            },
    {
        if self.retries_left >= 0 {
            match &self.wanted {
                Wanted::Versioned(objs) => DownloadStep::Fetch(
                    Request::VersionedObjects(copied(objs)),
                ),
                Wanted::Latest(ids) => DownloadStep::Fetch(Request::LatestObjects(copied(ids))),
            }
        } else {
            DownloadStep::Done(Err(LocalExecError::SuiRpcRequestTimeout))
        }
    }

    /// What to do with a reply: a timeout uses up one retry and is followed by a
    /// pause, any other reply is the result.
    pub fn on_reply(&mut self, reply: ObjectsReply) -> (r: DownloadStep)
        requires
            old(self).retries_left >= 0,
        ensures
            is_timeout(reply) ==> r == DownloadStep::Sleep(old(self).sleep_period_ms),
            is_timeout(reply) ==> *final(self) == (Download {
                retries_left: (old(self).retries_left - 1) as i64,
                ..*old(self)
            }),
            !is_timeout(reply) ==> r == DownloadStep::Done(reply) && *final(self) == *old(self),
    {
        match reply {
            Ok(objs) => DownloadStep::Done(Ok(objs)),
            Err(LocalExecError::SuiRpcRequestTimeout) => {
                self.retries_left = self.retries_left - 1;
                DownloadStep::Sleep(self.sleep_period_ms)
            },
            Err(err) => DownloadStep::Done(Err(err)),
        }
    }
}

/// The result of a download with so many retries left, when the node answers one
/// request after the other as given. There is none as long as another reply is awaited.
pub open spec fn download_result(retries_left: int, replies: Seq<ObjectsReply>) -> Option<
    ObjectsReply,
>
    decreases replies.len(),
{
    if retries_left < 0 {
        Some(Err(LocalExecError::SuiRpcRequestTimeout))
    } else if replies.len() == 0 {
        None
    } else if is_timeout(replies[0]) {
        download_result(retries_left - 1, replies.skip(1))
    } else {
        Some(replies[0])
    }
}

/// A download goes from one reply to the next: a timeout uses up one retry, and any other
/// reply is the result.
pub proof fn law_download_goes_reply_by_reply(
    before: Download,
    reply: ObjectsReply,
    after: Download,
    rest: Seq<ObjectsReply>,
)
    requires
        before.retries_left >= 0,
        after.retries_left == before.retries_left - 1,
    ensures
        download_result(before.retries_left as int, seq![reply] + rest) == if is_timeout(reply) {
            download_result(after.retries_left as int, rest)
        } else {
            Some(reply)
        },
{
    assert((seq![reply] + rest).skip(1) =~= rest);
}

/// A download returns the first reply that is no timeout, as long as no more
/// timeouts come before it than there are retries.
pub proof fn law_first_answer_is_returned(retries_left: int, replies: Seq<ObjectsReply>, k: int)
    requires
        0 <= k < replies.len(),
        k <= retries_left,
        !is_timeout(replies[k]),
        forall|j: int| 0 <= j < k ==> is_timeout(#[trigger] replies[j]),
    ensures
        download_result(retries_left, replies) == Some(replies[k]),
    decreases k,
{
    if k > 0 {
        let rest = replies.skip(1);
        assert(is_timeout(replies[0]));
        assert forall|j: int| 0 <= j < k - 1 implies is_timeout(#[trigger] rest[j]) by {
            assert(rest[j] == replies[j + 1]);
        }
        law_first_answer_is_returned(retries_left - 1, rest, k - 1);
    }
}

/// A download times out exactly when the first request and all its retries do.
pub proof fn law_timeouts_use_up_the_retries(retries_left: int, replies: Seq<ObjectsReply>)
    requires
        0 <= retries_left,
        forall|j: int| 0 <= j < replies.len() ==> is_timeout(#[trigger] replies[j]),
    ensures
        replies.len() > retries_left ==> download_result(retries_left, replies) == Some(
            Err::<Vec<Object>, _>(LocalExecError::SuiRpcRequestTimeout),
        ),
        replies.len() <= retries_left ==> download_result(retries_left, replies) is None,
    decreases replies.len(),
{
    if replies.len() > 0 {
        let rest = replies.skip(1);
        assert(is_timeout(replies[0]));
        assert forall|j: int| 0 <= j < rest.len() implies is_timeout(#[trigger] rest[j]) by {
            assert(rest[j] == replies[j + 1]);
        }
        if retries_left > 0 {
            law_timeouts_use_up_the_retries(retries_left - 1, rest);
        }
    }
}

/// What a download for the latest version of one object found: nothing if the
/// object is gone, and an error of the node with the text of the reply otherwise.
pub open spec fn latest_object(reply: ObjectsReply) -> Result<Option<Object>, LocalExecError> {
    match reply {
        Ok(objs) => Ok(Some(objs@.last())),
        Err(LocalExecError::ObjectNotExist { .. }) => Ok(None),
        Err(LocalExecError::ObjectDeleted { .. }) => Ok(None),
        Err(err) => Err(LocalExecError::SuiRpcError { err: ErrorText::Of(Arc::new(err)) }),
    }
}

/// A node that answers a request for one object names at least one.
pub open spec fn answers_one(reply: ObjectsReply) -> bool {
    reply matches Ok(objs) ==> objs@.len() > 0
}

impl LocalExec {
    /// The identifiers that are not packages of the system at the current protocol version.
    pub open spec fn non_system_packages(&self, ids: Seq<ObjectID>) -> Seq<ObjectID> {
        ids.filter(
            |id: ObjectID| !self.system_packages(self.current_protocol_version).contains(id),
        )
    }

    /// A download of objects at given versions.
    pub fn multi_download(&self, objs: &Vec<(ObjectID, SequenceNumber)>) -> (r: Download)
        ensures
            r.is_fresh(RequestView::VersionedObjects(objs@), self),
    {
        Download {
            wanted: Wanted::Versioned(copied(objs)),
            retries_left: self.params.num_retries_for_timeout as i64,
            sleep_period_ms: self.params.sleep_period_for_timeout_ms,
        }
    }

    /// A download of objects at their latest versions.
    pub fn multi_download_latest(&self, objs: &Vec<ObjectID>) -> (r: Download)
        ensures
            r.is_fresh(RequestView::LatestObjects(objs@), self),
    {
        Download {
            wanted: Wanted::Latest(copied(objs)),
            retries_left: self.params.num_retries_for_timeout as i64,
            sleep_period_ms: self.params.sleep_period_for_timeout_ms,
        }
    }

    /// Stores what a download gave, if it gave objects, as the objects that the
    /// transaction saw.
    pub fn store_downloaded(&mut self, reply: ObjectsReply) -> (r: ObjectsReply)
        ensures
            r == reply,
            final(self).same_but_storage(old(self)),
            match reply {
                Ok(found) => final(self).storage@ == old(self).storage@.with_all_live(found@),
                Err(_) => *final(self) == *old(self),
            },
    {
        match &reply {
            Ok(found) => {
                self.storage.backfill(found);
            },
            Err(_) => {},
        }
        reply
    }

    /// Downloads objects at given versions and stores them as those that the
    /// transaction saw. `reply` is what the download gave, once it is over.
    pub fn multi_download_and_store(
        &mut self,
        objs: &Vec<(ObjectID, SequenceNumber)>,
        reply: Option<ObjectsReply>,
    ) -> (r: Step<ObjectsReply>)
        ensures
            final(self).same_but_storage(old(self)),
            match reply {
                None => r.asks(RequestView::VersionedObjects(objs@)) && *final(self) == *old(self),
                Some(Ok(found)) => {
                    &&& r == Step::Done(Ok::<_, LocalExecError>(found))
                    &&& final(self).storage@ == old(self).storage@.with_all_live(found@)
                },
                Some(Err(err)) => r == Step::Done(Err::<Vec<Object>, _>(err)) && *final(self)
                    == *old(self),
            },
    {
        match reply {
            None => Step::Ask(Request::VersionedObjects(copied(objs))),
            Some(reply) => Step::Done(self.store_downloaded(reply)),
        }
    }

    fn without_system_packages(&self, objs: &Vec<ObjectID>) -> (r: Vec<ObjectID>)
        ensures
            r@ == self.non_system_packages(objs@),
    {
        let system = self.system_package_ids(self.current_protocol_version);
        let ghost keep = |id: ObjectID|
            !self.system_packages(self.current_protocol_version).contains(id);
        let mut out: Vec<ObjectID> = Vec::new();
        proof {
            reveal(Seq::filter);
        }
        let mut i: usize = 0;
        while i < objs.len()
            invariant
                i <= objs.len(),
                system@ == self.system_packages(self.current_protocol_version),
                keep == (|id: ObjectID|
                    !self.system_packages(self.current_protocol_version).contains(id)),
                out@ == objs@.take(i as int).filter(keep),
            decreases objs.len() - i,
        {
            proof {
                reveal(Seq::filter);
                assert(objs@.take(i + 1) =~= objs@.take(i as int).push(objs@[i as int]));
                assert(objs@.take(i + 1).drop_last() =~= objs@.take(i as int));
            }
            if !contains_id(&system, &objs[i]) {
                out.push(objs[i]);
            }
            i += 1;
        }
        assert(objs@.take(i as int) =~= objs@);
        out
    }

    /// Downloads packages and caches them: those of the system at the versions
    /// of a protocol version, and the others at their latest versions. The
    /// packages of the system are asked for first and come last in the result.
    /// The replies are what the two downloads gave, once each is over.
    pub fn multi_download_relevant_packages_and_store(
        &mut self,
        objs: &Vec<ObjectID>,
        protocol_version: u64,
        system_reply: &Option<ObjectsReply>,
        latest_reply: &Option<ObjectsReply>,
    ) -> (r: Step<ObjectsReply>)
        ensures
            final(self).same_but_storage(old(self)),
            ({
                let tables = old(self).protocol_version_system_package_table@;
                if !tables.contains_key(protocol_version) {
                    r == Step::Done(
                        Err::<Vec<Object>, _>(
                            LocalExecError::FrameworkObjectVersionTableNotPopulated {
                                epoch: protocol_version,
                            },
                        ),
                    ) && *final(self) == *old(self)
                } else {
                    match (*system_reply, *latest_reply) {
                        (None, _) => r.asks(
                            RequestView::VersionedObjects(listing(tables[protocol_version]@)),
                        ) && *final(self) == *old(self),
                        (Some(Err(err)), _) => r == Step::Done(Err::<Vec<Object>, _>(err))
                            && *final(self) == *old(self),
                        (Some(Ok(_)), None) => r.asks(
                            RequestView::LatestObjects(old(self).non_system_packages(objs@)),
                        ) && *final(self) == *old(self),
                        (Some(Ok(_)), Some(Err(err))) => r == Step::Done(
                            Err::<Vec<Object>, _>(err),
                        ) && *final(self) == *old(self),
                        (Some(Ok(system)), Some(Ok(latest))) => {
                            &&& r matches Step::Done(Ok(found)) && found@ == latest@ + system@
                            &&& final(self).storage@ == old(self).storage@.with_all_cached(
                                latest@ + system@,
                            )
                        },
                    }
                }
            }),
    {
        let versions = match self.system_package_versions_for_epoch(protocol_version) {
            Ok(versions) => versions,
            Err(err) => {
                return Step::Done(Err(err));
            },
        };
        let system = match system_reply {
            None => {
                return Step::Ask(Request::VersionedObjects(versions));
            },
            Some(Err(err)) => {
                return Step::Done(Err(err.clone()));
            },
            Some(Ok(system)) => system,
        };
        let non_system = self.without_system_packages(objs);
        match latest_reply {
            None => Step::Ask(Request::LatestObjects(non_system)),
            Some(Err(err)) => Step::Done(Err(err.clone())),
            Some(Ok(latest)) => {
                let mut found = clone_objects(latest);
                let mut rest = clone_objects(system);
                found.append(&mut rest);
                self.storage.cache_all(&found);
                Step::Done(Ok(found))
            },
        }
    }

    /// An object at a version: from the cache if it is there, else from the node,
    /// and then it is cached under the identifier and version that it came with.
    /// `reply` is what the download gave, once it is over.
    pub fn download_object(
        &mut self,
        object_id: &ObjectID,
        version: SequenceNumber,
        reply: Option<ObjectsReply>,
    ) -> (r: Step<Result<Object, LocalExecError>>)
        requires
            !old(self).storage@.versions.contains_key((*object_id, version)) && reply is Some
                ==> answers_one(reply->0),
        ensures
            final(self).same_but_storage(old(self)),
            ({
                let key = (*object_id, version);
                let cached = old(self).storage@.versions;
                if cached.contains_key(key) {
                    r == Step::Done(Ok::<_, LocalExecError>(cached[key])) && *final(self)
                        == *old(self)
                } else {
                    match reply {
                        None => r.asks(RequestView::VersionedObjects(seq![key])) && *final(self)
                            == *old(self),
                        Some(Err(err)) => r == Step::Done(Err::<Object, _>(err)) && *final(self)
                            == *old(self),
                        Some(Ok(objs)) => {
                            &&& r == Step::Done(Ok::<_, LocalExecError>(objs@.last()))
                            &&& final(self).storage@ == old(self).storage@.with_version(
                                objs@.last(),
                            )
                        },
                    }
                }
            }),
    {
        match self.storage.object_at(object_id, version) {
            Some(obj) => {
                return Step::Done(Ok(obj));
            },
            None => {},
        }
        match reply {
            None => {
                let mut objs: Vec<(ObjectID, SequenceNumber)> = Vec::new();
                objs.push((*object_id, version));
                assert(objs@ =~= seq![(*object_id, version)]);
                Step::Ask(Request::VersionedObjects(objs))
            },
            Some(Err(err)) => Step::Done(Err(err)),
            Some(Ok(objs)) => {
                let obj = objs[objs.len() - 1].clone();
                self.storage.keep_version(&obj);
                Step::Done(Ok(obj))
            },
        }
    }

    /// An object at its latest version, from the node. An object that was never
    /// there or is deleted is no error. `reply` is what the download gave, once it is over.
    pub fn download_latest_object(&self, object_id: &ObjectID, reply: Option<ObjectsReply>) -> (r:
        Step<Result<Option<Object>, LocalExecError>>)
        requires
            reply is Some ==> answers_one(reply->0),
        ensures
            match reply {
                None => r.asks(RequestView::LatestObjects(seq![*object_id])),
                Some(reply) => r == Step::Done(latest_object(reply)),
            },
    {
        match reply {
            None => {
                let mut ids: Vec<ObjectID> = Vec::new();
                ids.push(*object_id);
                assert(ids@ =~= seq![*object_id]);
                Step::Ask(Request::LatestObjects(ids))
            },
            Some(Ok(objs)) => Step::Done(Ok(Some(objs[objs.len() - 1].clone()))),
            Some(Err(err)) => match err {
                LocalExecError::ObjectNotExist { .. } => Step::Done(Ok(None)),
                LocalExecError::ObjectDeleted { .. } => Step::Done(Ok(None)),
                _ => Step::Done(
                    Err(LocalExecError::SuiRpcError { err: ErrorText::Of(Arc::new(err)) }),
                ),
            },
        }
    }

    /// What is at hand without asking the node: a package from the packages, any
    /// other object from the live objects.
    pub open spec fn at_hand(&self, id: ObjectID, package_expected: bool) -> Option<Object> {
        if package_expected {
            self.storage@.packages.get(id)
        } else {
            self.storage@.live.get(id)
        }
    }

    /// A package or another object, from what is at hand or else from the node.
    /// What the node gave is cached: a package under the identifier it was asked
    /// for by, and every object under its version. `reply` is what the download
    /// gave, once it is over.
    ///
    /// The node is never asked for anything else during execution.
    pub fn get_or_download_object(
        &mut self,
        obj_id: &ObjectID,
        package_expected: bool,
        reply: Option<ObjectsReply>,
    ) -> (r: Step<Result<Option<Object>, LocalExecError>>)
        requires
            old(self).at_hand(*obj_id, package_expected) is None && reply is Some ==> answers_one(
                reply->0,
            ),
            // A package may only come where one is expected.
            old(self).at_hand(*obj_id, package_expected) is None && !package_expected ==> (
            reply matches Some(Ok(objs)) ==> !objs@.last().is_package()),
        ensures
            final(self).same_but_storage(old(self)),
            match old(self).at_hand(*obj_id, package_expected) {
                Some(obj) => r == Step::Done(Ok::<_, LocalExecError>(Some(obj))) && *final(self)
                    == *old(self),
                None => match reply {
                    None => r.asks(RequestView::LatestObjects(seq![*obj_id])) && *final(self)
                        == *old(self),
                    Some(reply) => {
                        &&& r == Step::Done(latest_object(reply))
                        &&& match latest_object(reply) {
                            Ok(Some(obj)) => final(self).storage@
                                == old(self).storage@.with_downloaded(*obj_id, obj),
                            _ => *final(self) == *old(self),
                        }
                    },
                },
            },
    {
        let found = if package_expected {
            self.storage.package(obj_id)
        } else {
            self.storage.live_object(obj_id)
        };
        if found.is_some() {
            return Step::Done(Ok(found));
        }
        let step = self.download_latest_object(obj_id, reply);
        match &step {
            Step::Done(Ok(Some(obj))) => {
                self.storage.keep_downloaded(obj_id, obj);
            },
            _ => {},
        }
        step
    }
}

/// A package that was downloaded is at hand from then on, by the identifier that it
/// was asked for by.
pub proof fn law_downloaded_package_is_at_hand(
    before: &LocalExec,
    after: &LocalExec,
    asked: ObjectID,
    obj: Object,
)
    requires
        obj.is_package(),
        after.storage@ == before.storage@.with_downloaded(asked, obj),
    ensures
        after.at_hand(asked, true) == Some(obj),
{
}

/// An object that is no package does not become live by being downloaded: the
/// node is asked for it again the next time.
pub proof fn law_other_downloads_are_asked_for_again(
    before: &LocalExec,
    after: &LocalExec,
    asked: ObjectID,
    obj: Object,
)
    requires
        before.at_hand(asked, false) is None,
        after.storage@ == before.storage@.with_downloaded(asked, obj),
    ensures
        after.at_hand(asked, false) is None,
{
}

/// An object that was downloaded at its version is in the cache from then on.
pub proof fn law_downloaded_version_is_cached(before: &LocalExec, after: &LocalExec, obj: Object)
    requires
        after.storage@ == before.storage@.with_version(obj),
    ensures
        after.storage@.versions.contains_pair(obj.key(), obj),
{
}

/// Whether an identifier is in a list.
pub fn contains_id(ids: &Vec<ObjectID>, id: &ObjectID) -> (r: bool)
    ensures
        r == ids@.contains(*id),
{
    let mut i: usize = 0;
    while i < ids.len()
        invariant
            i <= ids.len(),
            forall|j: int| 0 <= j < i ==> #[trigger] ids@[j] != *id,
        decreases ids.len() - i,
    {
        if same_id(&ids[i], id) {
            assert(ids@[i as int] == *id);
            return true;
        }
        i += 1;
    }
    false
}

/// A reply that is no timeout ends a download and is its result. A timeout uses up one retry and is
/// followed by the pause.
pub proof fn law_only_timeouts_are_retried(
    before: Download,
    reply: ObjectsReply,
    after: Download,
    r: DownloadStep,
)
    requires
        before.retries_left >= 0,
        exists|download: &mut Download|
            *download == before && *final(download) == after && #[trigger] call_ensures(
                Download::on_reply,
                (download, reply),
                r,
            ),
    ensures
        after.wanted == before.wanted,
        after.sleep_period_ms == before.sleep_period_ms,
        if reply == Err::<Vec<Object>, _>(LocalExecError::SuiRpcRequestTimeout) {
            r == DownloadStep::Sleep(before.sleep_period_ms) && after.retries_left
                == before.retries_left - 1
        } else {
            r == DownloadStep::Done(reply) && after == before
        },
{
}

/// A download of objects at given versions asks for exactly these, again after each timeout, once
/// at first and then as often as there are retries. After that it has timed out.
pub proof fn law_a_download_asks_until_the_retries_are_used_up(
    exec: &LocalExec,
    objs: &Vec<(ObjectID, SequenceNumber)>,
    states: Seq<Download>,
    steps: Seq<DownloadStep>,
    k: int,
    r: DownloadStep,
)
    requires
        states.len() == k + 1,
        steps.len() == k,
        0 <= k <= exec.params.num_retries_for_timeout + 1,
        call_ensures(LocalExec::multi_download, (exec, objs), states[0]),
        forall|i: int|
            0 <= i < k ==> exists|download: &mut Download|
                *download == states[i] && *final(download) == states[i + 1]
                    && #[trigger] call_ensures(
                    Download::on_reply,
                    (download, Err::<Vec<Object>, _>(LocalExecError::SuiRpcRequestTimeout)),
                    #[trigger] steps[i],
                ),
        call_ensures(Download::poll, (&states[k],), r),
    ensures
        if k <= exec.params.num_retries_for_timeout {
            r matches DownloadStep::Fetch(Request::VersionedObjects(keys)) && keys@ == objs@
        } else {
            r == DownloadStep::Done(Err(LocalExecError::SuiRpcRequestTimeout))
        },
        forall|i: int|
            0 <= i < k ==> #[trigger] steps[i] == DownloadStep::Sleep(
                exec.params.sleep_period_for_timeout_ms,
            ),
{
    assert forall|i: int| 0 <= i < k implies #[trigger] uses_retry(states, steps, i) by {
        if states[i].retries_left >= 0 {
            let timeout = Err::<Vec<Object>, _>(LocalExecError::SuiRpcRequestTimeout);
            law_only_timeouts_are_retried(states[i], timeout, states[i + 1], steps[i]);
        }
    }
    lemma_retries(exec, states, steps, k);
}

/// A download of objects at their latest versions does the same.
pub proof fn law_a_latest_download_asks_until_the_retries_are_used_up(
    exec: &LocalExec,
    objs: &Vec<ObjectID>,
    states: Seq<Download>,
    steps: Seq<DownloadStep>,
    k: int,
    r: DownloadStep,
)
    requires
        states.len() == k + 1,
        steps.len() == k,
        0 <= k <= exec.params.num_retries_for_timeout + 1,
        call_ensures(LocalExec::multi_download_latest, (exec, objs), states[0]),
        forall|i: int|
            0 <= i < k ==> exists|download: &mut Download|
                *download == states[i] && *final(download) == states[i + 1]
                    && #[trigger] call_ensures(
                    Download::on_reply,
                    (download, Err::<Vec<Object>, _>(LocalExecError::SuiRpcRequestTimeout)),
                    #[trigger] steps[i],
                ),
        call_ensures(Download::poll, (&states[k],), r),
    ensures
        if k <= exec.params.num_retries_for_timeout {
            r matches DownloadStep::Fetch(Request::LatestObjects(ids)) && ids@ == objs@
        } else {
            r == DownloadStep::Done(Err(LocalExecError::SuiRpcRequestTimeout))
        },
        forall|i: int|
            0 <= i < k ==> #[trigger] steps[i] == DownloadStep::Sleep(
                exec.params.sleep_period_for_timeout_ms,
            ),
{
    assert forall|i: int| 0 <= i < k implies #[trigger] uses_retry(states, steps, i) by {
        if states[i].retries_left >= 0 {
            let timeout = Err::<Vec<Object>, _>(LocalExecError::SuiRpcRequestTimeout);
            law_only_timeouts_are_retried(states[i], timeout, states[i + 1], steps[i]);
        }
    }
    lemma_retries(exec, states, steps, k);
}

/// Whether a timeout uses up one retry of a download that has one left.
spec fn uses_retry(states: Seq<Download>, steps: Seq<DownloadStep>, i: int) -> bool {
    states[i].retries_left >= 0 ==> {
        &&& states[i + 1] == (Download {
            retries_left: (states[i].retries_left - 1) as i64,
            ..states[i]
        })
        &&& steps[i] == DownloadStep::Sleep(states[i].sleep_period_ms)
    }
}

proof fn lemma_retries(
    exec: &LocalExec,
    states: Seq<Download>,
    steps: Seq<DownloadStep>,
    k: int,
)
    requires
        0 <= k < states.len(),
        states.len() == steps.len() + 1,
        k <= exec.params.num_retries_for_timeout + 1,
        states[0].retries_left == exec.params.num_retries_for_timeout,
        states[0].sleep_period_ms == exec.params.sleep_period_for_timeout_ms,
        forall|i: int| 0 <= i < steps.len() ==> #[trigger] uses_retry(states, steps, i),
    ensures
        states[k].wanted == states[0].wanted,
        states[k].sleep_period_ms == states[0].sleep_period_ms,
        states[k].retries_left == exec.params.num_retries_for_timeout - k,
        forall|i: int|
            0 <= i < k ==> #[trigger] steps[i] == DownloadStep::Sleep(
                exec.params.sleep_period_for_timeout_ms,
            ),
    decreases k,
{
    if k > 0 {
        lemma_retries(exec, states, steps, k - 1);
        assert(uses_retry(states, steps, k - 1));
    }
}

/// Objects that are downloaded at given versions are stored: each is live under its identifier,
/// held at its version and, if it is a package, among the packages. Where several have the
/// same identifier the last one counts. What no object is stored under stays as it was.
pub proof fn law_downloaded_objects_are_stored(
    before: &LocalExec,
    objs: &Vec<(ObjectID, SequenceNumber)>,
    found: Vec<Object>,
    after: &LocalExec,
    r: Step<ObjectsReply>,
    i: int,
    id: ObjectID,
    version: SequenceNumber,
)
    requires
        exists|session: &mut LocalExec|
            *session == *before && *final(session) == *after && #[trigger] call_ensures(
                LocalExec::multi_download_and_store,
                (session, objs, Some(Ok::<_, LocalExecError>(found))),
                r,
            ),
    ensures
        r == Step::Done(Ok::<_, LocalExecError>(found)),
        *after == (LocalExec { storage: after.storage, ..*before }),
        is_last_with_id(found@, i) ==> after.storage@.live.contains_pair(found@[i].id, found@[i]),
        is_last_with_key(found@, i) ==> after.storage@.versions.contains_pair(
            (found@[i].id, found@[i].version),
            found@[i],
        ),
        is_last_package(found@, i) ==> after.storage@.packages.contains_pair(
            found@[i].id,
            found@[i],
        ),
        (forall|j: int| 0 <= j < found@.len() ==> (#[trigger] found@[j]).id != id)
            ==> after.storage@.live.get(id) == before.storage@.live.get(id)
            && after.storage@.packages.get(id) == before.storage@.packages.get(id)
            && after.storage@.versions.get((id, version)) == before.storage@.versions.get(
            (id, version),
        ),
{
    law_stored_objects_are_found(before.storage@, found@, i);
    law_storing_keeps_other_entries(before.storage@, found@, id, version);
}

/// A download to store objects asks for exactly those that are wanted, and one that failed stores
/// nothing.
pub proof fn law_a_failed_download_stores_nothing(
    before: &LocalExec,
    objs: &Vec<(ObjectID, SequenceNumber)>,
    reply: Option<ObjectsReply>,
    after: &LocalExec,
    r: Step<ObjectsReply>,
)
    requires
        !(reply matches Some(Ok(_))),
        exists|session: &mut LocalExec|
            *session == *before && *final(session) == *after && #[trigger] call_ensures(
                LocalExec::multi_download_and_store,
                (session, objs, reply),
                r,
            ),
    ensures
        *after == *before,
        match reply {
            None => r matches Step::Ask(Request::VersionedObjects(keys)) && keys@ == objs@,
            Some(reply) => r == Step::Done(reply),
        },
{
}

/// Packages are asked for in two parts: those of the system at the versions that the table of the
/// protocol version has for them, and of the wanted ones those that are not of the system at their
/// latest versions. All that comes is cached, and nothing becomes live.
pub proof fn law_relevant_packages_are_cached(
    before: &LocalExec,
    objs: &Vec<ObjectID>,
    protocol_version: u64,
    system: Option<ObjectsReply>,
    latest: Option<ObjectsReply>,
    after: &LocalExec,
    r: Step<ObjectsReply>,
    id: ObjectID,
    version: SequenceNumber,
    i: int,
)
    requires
        before.protocol_version_system_package_table@.contains_key(protocol_version),
        exists|session: &mut LocalExec|
            *session == *before && *final(session) == *after && #[trigger] call_ensures(
                LocalExec::multi_download_relevant_packages_and_store,
                (session, objs, protocol_version, &system, &latest),
                r,
            ),
    ensures
        *after == (LocalExec { storage: after.storage, ..*before }),
        after.storage@.live == before.storage@.live,
        match system {
            None => {
                let table = before.protocol_version_system_package_table@[protocol_version]@;
                &&& *after == *before
                &&& r matches Step::Ask(Request::VersionedObjects(keys))
                &&& table.contains_key(id) ==> keys@.contains((id, table[id]))
                &&& forall|k: int|
                    0 <= k < keys@.len() ==> table.contains_pair(
                        (#[trigger] keys@[k]).0,
                        keys@[k].1,
                    )
            },
            Some(Err(err)) => *after == *before && r == Step::Done(Err::<Vec<Object>, _>(err)),
            Some(Ok(system)) => match latest {
                None => {
                    let current = before.current_protocol_version;
                    &&& *after == *before
                    &&& r matches Step::Ask(Request::LatestObjects(ids))
                    &&& ids@ == objs@.filter(
                        |package: ObjectID|
                            !(before.params.builtin_package_ids@.contains(package) && (current >= 5
                                || package != before.params.deepbook_package_id)),
                    )
                },
                Some(Err(err)) => *after == *before && r == Step::Done(Err::<Vec<Object>, _>(err)),
                Some(Ok(latest)) => {
                    let all = latest@ + system@;
                    &&& r matches Step::Done(Ok(found)) && found@ == all
                    &&& is_last_package(all, i) ==> after.storage@.packages.contains_pair(
                        all[i].id,
                        all[i],
                    )
                    &&& is_last_with_key(all, i) ==> after.storage@.versions.contains_pair(
                        (all[i].id, all[i].version),
                        all[i],
                    )
                    &&& none_with_id(all, 0, id) ==> after.storage@.packages.get(id)
                        == before.storage@.packages.get(id) && after.storage@.versions.get(
                        (id, version),
                    ) == before.storage@.versions.get((id, version))
                },
            },
        },
{
    if let (Some(Ok(system)), Some(Ok(latest))) = (system, latest) {
        let all = latest@ + system@;
        law_caching_leaves_live_objects(before.storage@, all);
        law_stored_objects_are_found(before.storage@, all, i);
        law_storing_keeps_other_entries(before.storage@, all, id, version);
    }
    if system is None {
        let table = before.protocol_version_system_package_table@[protocol_version]@;
        lemma_listed_table(table, id);
    }
    lemma_non_system_packages(before, objs@);
}

proof fn lemma_listed_table(table: Map<ObjectID, SequenceNumber>, id: ObjectID)
    requires
        table.dom().finite(),
    ensures
        table.contains_key(id) ==> listing(table).contains((id, table[id])),
        forall|k: int|
            0 <= k < listing(table).len() ==> table.contains_pair(
                (#[trigger] listing(table)[k]).0,
                listing(table)[k].1,
            ),
{
    law_every_map_has_its_listing(table);
    let whole = listing(table);
    if table.contains_key(id) {
        let k = choose|k: int| 0 <= k < whole.len() && (#[trigger] whole[k]).0 == id;
        assert(whole[k] == (id, table[id]));
    }
}

proof fn lemma_non_system_packages(exec: &LocalExec, ids: Seq<ObjectID>)
    ensures
        exec.non_system_packages(ids) == ids.filter(
            |package: ObjectID|
                !(exec.params.builtin_package_ids@.contains(package) && (
                exec.current_protocol_version >= 5 || package != exec.params.deepbook_package_id)),
        ),
{
    let version = exec.current_protocol_version;
    let builtin = exec.params.builtin_package_ids@;
    lemma_system_packages(exec, version);
    assert forall|package: ObjectID|
        #[trigger] exec.system_packages(version).contains(package) == (builtin.contains(package)
            && (version >= 5 || package != exec.params.deepbook_package_id)) by {
        lemma_filter_contains_it(
            builtin,
            |id: ObjectID| version >= 5 || id != exec.params.deepbook_package_id,
            package,
        );
    }
    lemma_filters_agree(
        ids,
        |id: ObjectID| !exec.system_packages(version).contains(id),
        |package: ObjectID|
            !(builtin.contains(package) && (version >= 5 || package
                != exec.params.deepbook_package_id)),
    );
}

/// Without a table for the protocol version no packages are asked for: that is an error.
pub proof fn law_packages_need_their_table(
    before: &LocalExec,
    objs: &Vec<ObjectID>,
    protocol_version: u64,
    system: Option<ObjectsReply>,
    latest: Option<ObjectsReply>,
    after: &LocalExec,
    r: Step<ObjectsReply>,
)
    requires
        !before.protocol_version_system_package_table@.contains_key(protocol_version),
        exists|session: &mut LocalExec|
            *session == *before && *final(session) == *after && #[trigger] call_ensures(
                LocalExec::multi_download_relevant_packages_and_store,
                (session, objs, protocol_version, &system, &latest),
                r,
            ),
    ensures
        *after == *before,
        r == Step::Done(
            Err::<Vec<Object>, _>(
                LocalExecError::FrameworkObjectVersionTableNotPopulated { epoch: protocol_version },
            ),
        ),
{
}

/// An object at a version that is in the cache is taken from there, and nothing is asked. Any other
/// is asked for by exactly this identifier and version; what comes is the result, and is cached
/// under the identifier and version that it came with. Nothing else changes.
pub proof fn law_an_object_is_downloaded_once(
    before: &LocalExec,
    id: &ObjectID,
    version: SequenceNumber,
    reply: Option<ObjectsReply>,
    after: &LocalExec,
    r: Step<Result<Object, LocalExecError>>,
    key: (ObjectID, SequenceNumber),
)
    requires
        reply matches Some(Ok(objs)) ==> objs@.len() > 0,
        exists|session: &mut LocalExec|
            *session == *before && *final(session) == *after && #[trigger] call_ensures(
                LocalExec::download_object,
                (session, id, version, reply),
                r,
            ),
    ensures
        *after == (LocalExec { storage: after.storage, ..*before }),
        after.storage@.live == before.storage@.live,
        after.storage@.packages == before.storage@.packages,
        if before.storage@.versions.contains_key((*id, version)) {
            *after == *before && r == Step::Done(
                Ok::<_, LocalExecError>(before.storage@.versions[(*id, version)]),
            )
        } else {
            match reply {
                None => *after == *before && (r matches Step::Ask(Request::VersionedObjects(keys))
                    && keys@ == seq![(*id, version)]),
                Some(Err(err)) => *after == *before && r == Step::Done(Err::<Object, _>(err)),
                Some(Ok(objs)) => {
                    let obj = objs@[objs@.len() - 1];
                    &&& r == Step::Done(Ok::<_, LocalExecError>(obj))
                    &&& after.storage@.versions.contains_pair((obj.id, obj.version), obj)
                    &&& key != (obj.id, obj.version) ==> after.storage@.versions.get(key)
                        == before.storage@.versions.get(key)
                },
            }
        },
{
}

/// The latest version of an object is asked for by exactly its identifier. An object that does not
/// exist or is deleted is no error; any other failure is one, with the reason in it.
pub proof fn law_latest_objects_may_be_gone(
    exec: &LocalExec,
    id: &ObjectID,
    reply: Option<ObjectsReply>,
    r: Step<Result<Option<Object>, LocalExecError>>,
)
    requires
        reply matches Some(Ok(objs)) ==> objs@.len() > 0,
        call_ensures(LocalExec::download_latest_object, (exec, id, reply), r),
    ensures
        match reply {
            None => r matches Step::Ask(Request::LatestObjects(ids)) && ids@ == seq![*id],
            Some(Ok(objs)) => r == Step::Done(
                Ok::<_, LocalExecError>(Some(objs@[objs@.len() - 1])),
            ),
            Some(Err(err)) => if err is ObjectNotExist || err is ObjectDeleted {
                r == Step::Done(Ok::<Option<Object>, LocalExecError>(None))
            } else {
                r == Step::Done(
                    Err::<Option<Object>, _>(
                        LocalExecError::SuiRpcError { err: ErrorText::Of(Arc::new(err)) },
                    ),
                )
            },
        },
{
}

/// During execution a package is taken from the packages and any other object from the live
/// objects, if it is there, and nothing is asked. Else its latest version is asked for. What
/// comes is the result and is held at its version, and a package also as the package with the
/// identifier that was asked for. Nothing else changes, and nothing becomes live.
pub proof fn law_execution_reads_what_is_at_hand(
    before: &LocalExec,
    id: &ObjectID,
    package_expected: bool,
    reply: Option<ObjectsReply>,
    after: &LocalExec,
    r: Step<Result<Option<Object>, LocalExecError>>,
    other: ObjectID,
    key: (ObjectID, SequenceNumber),
)
    requires
        reply matches Some(Ok(objs)) ==> objs@.len() > 0 && (!package_expected
            ==> !objs@.last().is_package()),
        exists|session: &mut LocalExec|
            *session == *before && *final(session) == *after && #[trigger] call_ensures(
                LocalExec::get_or_download_object,
                (session, id, package_expected, reply),
                r,
            ),
    ensures
        *after == (LocalExec { storage: after.storage, ..*before }),
        after.storage@.live == before.storage@.live,
        ({
            let place = if package_expected {
                before.storage@.packages
            } else {
                before.storage@.live
            };
            if place.contains_key(*id) {
                *after == *before && r == Step::Done(Ok::<_, LocalExecError>(Some(place[*id])))
            } else {
                match reply {
                    None => *after == *before && (r matches Step::Ask(Request::LatestObjects(ids))
                        && ids@ == seq![*id]),
                    Some(Err(err)) => *after == *before && if err is ObjectNotExist || err
                        is ObjectDeleted {
                        r == Step::Done(Ok::<Option<Object>, LocalExecError>(None))
                    } else {
                        r == Step::Done(
                            Err::<Option<Object>, _>(
                                LocalExecError::SuiRpcError { err: ErrorText::Of(Arc::new(err)) },
                            ),
                        )
                    },
                    Some(Ok(objs)) => {
                        let obj = objs@[objs@.len() - 1];
                        &&& r == Step::Done(Ok::<_, LocalExecError>(Some(obj)))
                        &&& after.storage@.versions.contains_pair((obj.id, obj.version), obj)
                        &&& key != (obj.id, obj.version) ==> after.storage@.versions.get(key)
                            == before.storage@.versions.get(key)
                        &&& *obj.data is Package ==> after.storage@.packages.contains_pair(*id, obj)
                        &&& other != *id || !(*obj.data is Package)
                            ==> after.storage@.packages.get(other)
                            == before.storage@.packages.get(other)
                    },
                }
            }
        }),
{
}

/// What a download gave is stored if it gave objects, and is handed on in any case. A failed one
/// stores nothing.
pub proof fn law_what_came_is_stored(
    before: &LocalExec,
    reply: ObjectsReply,
    after: &LocalExec,
    r: ObjectsReply,
    i: int,
    id: ObjectID,
    version: SequenceNumber,
)
    requires
        exists|session: &mut LocalExec|
            *session == *before && *final(session) == *after && #[trigger] call_ensures(
                LocalExec::store_downloaded,
                (session, reply),
                r,
            ),
    ensures
        r == reply,
        *after == (LocalExec { storage: after.storage, ..*before }),
        reply is Err ==> *after == *before,
        reply matches Ok(found) ==> {
            &&& is_last_with_id(found@, i) ==> after.storage@.live.contains_pair(
                found@[i].id,
                found@[i],
            )
            &&& is_last_with_key(found@, i) ==> after.storage@.versions.contains_pair(
                (found@[i].id, found@[i].version),
                found@[i],
            )
            &&& is_last_package(found@, i) ==> after.storage@.packages.contains_pair(
                found@[i].id,
                found@[i],
            )
            &&& none_with_id(found@, 0, id) ==> after.storage@.live.get(id)
                == before.storage@.live.get(id) && after.storage@.packages.get(id)
                == before.storage@.packages.get(id) && after.storage@.versions.get((id, version))
                == before.storage@.versions.get((id, version))
        },
{
    if let Ok(found) = reply {
        law_stored_objects_are_found(before.storage@, found@, i);
        law_storing_keeps_other_entries(before.storage@, found@, id, version);
    }
}

/// An identifier is in a list just if it stands at some place.
pub proof fn law_identifiers_in_a_list_are_told(ids: &Vec<ObjectID>, id: &ObjectID, r: bool)
    requires
        call_ensures(contains_id, (ids, id), r),
    ensures
        r <==> exists|i: int| 0 <= i < ids@.len() && #[trigger] ids@[i] == *id,
{
}

} // verus!
