//! Preparing the storage for the execution of one transaction.
use crate::download::ObjectsReply;
use crate::error::LocalExecError;
use crate::inputs::{
    input_reply_fits, input_step, inputs_at_hand, is_at_hand, is_first_missing, is_missing_shared,
    keys_of, lemma_inputs_by_kind, lemma_package_place, object_keys, owned_inputs,
    package_inputs, resolved_inputs, InputStage, InputsResult, Progress, ResolvedInput,
};
use crate::listing::{is_listing, law_every_map_has_its_listing, listing, Key};
use crate::local_exec::LocalExec;
use crate::request::{copied, Request, RequestView};
use crate::storage::{
    is_last_package, law_caching_leaves_live_objects, law_live_objects_are_held,
    law_storage_only_grows, law_storage_stays_keyed, law_stored_objects_are_found,
    law_storing_keeps_other_entries, lemma_live_entries, no_package_with_id, none_at_version,
    none_with_id, StorageView,
};
use crate::types::{
    InputObjectKind, Object, ObjectID, ObjectRef, OnChainTransactionInfo, SequenceNumber,
};
use vstd::pervasive::unreached;
use vstd::prelude::*;

verus! {

/// What a node answers to the request for the child objects that a transaction loaded.
pub type ChildRefsReply = Result<Vec<(ObjectID, SequenceNumber)>, LocalExecError>;

/// An answer to one of the requests of the preparation.
#[derive(Debug, PartialEq)]
pub enum EnvReply {
    Objects(ObjectsReply),
    ChildRefs(ChildRefsReply),
}

/// Where the preparation stands: what was asked for last.
#[derive(Debug, PartialEq)]
#[allow(inconsistent_fields)]
pub enum EnvStage {
    /// Nothing has been asked yet.
    Begin,
    /// The objects that the transaction changed, as they were before.
    Modified,
    /// The shared objects.
    Shared,
    /// The objects that pay for the gas.
    Gas,
    /// The inputs of the transaction.
    Inputs(InputStage),
    /// The child objects that the transaction loaded.
    ChildRefs { inputs: Vec<ResolvedInput> },
    /// The contents of these child objects.
    Children { inputs: Vec<ResolvedInput> },
}

/// What the preparation is told next: nothing at first and after
/// `Progress::Continue`, else the answer to what was asked for last.
pub open spec fn env_reply_fits(
    info: &OnChainTransactionInfo,
    storage: StorageView,
    at: EnvStage,
    reply: Option<EnvReply>,
) -> bool {
    match at {
        EnvStage::Begin => reply is None,
        EnvStage::Inputs(stage) => match reply {
            None => stage is Resolve && input_reply_fits(info, storage, stage, None),
            Some(EnvReply::Objects(objs)) => input_reply_fits(info, storage, stage, Some(objs)),
            Some(EnvReply::ChildRefs(_)) => false,
        },
        EnvStage::ChildRefs { .. } => reply matches Some(EnvReply::ChildRefs(_)),
        _ => reply matches Some(EnvReply::Objects(_)),
    }
}

/// The objects that a reply holds.
pub open spec fn objects_of(reply: Option<EnvReply>) -> Option<ObjectsReply> {
    match reply {
        Some(EnvReply::Objects(objs)) => Some(objs),
        _ => None,
    }
}

/// A part of the preparation: objects have been asked for, and they become live.
pub open spec fn stores_reply(
    before: &LocalExec,
    reply: Option<EnvReply>,
    after: &LocalExec,
) -> bool {
    match objects_of(reply) {
        Some(Ok(objs)) => after.same_but_storage(before) && after.storage@
            == before.storage@.with_all_live(objs@),
        _ => *after == *before,
    }
}

/// What becomes of the preparation when a step on the inputs has come so far.
pub open spec fn env_after_inputs(
    info: &OnChainTransactionInfo,
    inner: Progress<InputStage, InputsResult>,
    r: Progress<EnvStage, InputsResult>,
) -> bool {
    match inner {
        Progress::Ask(request, stage) => r == Progress::<_, InputsResult>::Ask(
            request,
            EnvStage::Inputs(stage),
        ),
        Progress::Continue(stage) => r == Progress::<_, InputsResult>::Continue(
            EnvStage::Inputs(stage),
        ),
        Progress::Done(Err(err)) => r == Progress::<EnvStage, _>::Done(
            Err::<Vec<ResolvedInput>, _>(err),
        ),
        Progress::Done(Ok(inputs)) => r.asks(
            RequestView::LoadedChildObjects(info.tx_digest),
            EnvStage::ChildRefs { inputs },
        ),
    }
}

/// One step of the preparation.
pub open spec fn env_step(
    before: &LocalExec,
    info: &OnChainTransactionInfo,
    at: EnvStage,
    reply: Option<EnvReply>,
    after: &LocalExec,
    r: Progress<EnvStage, InputsResult>,
) -> bool {
    match at {
        EnvStage::Begin => {
            &&& *after == (LocalExec { current_protocol_version: info.protocol_version, ..*before })
            &&& r.asks(
                RequestView::VersionedObjects(info.modified_at_versions@),
                EnvStage::Modified,
            )
        },
        EnvStage::Modified => {
            &&& stores_reply(before, reply, after)
            &&& match objects_of(reply)->0 {
                Ok(_) => r.asks(
                    RequestView::VersionedObjects(keys_of(info.shared_object_refs@)),
                    EnvStage::Shared,
                ),
                Err(err) => r == Progress::<EnvStage, _>::Done(Err::<Vec<ResolvedInput>, _>(err)),
            }
        },
        EnvStage::Shared => {
            &&& stores_reply(before, reply, after)
            &&& match objects_of(reply)->0 {
                Ok(_) => r.asks(
                    RequestView::VersionedObjects(keys_of(info.gas@)),
                    EnvStage::Gas,
                ),
                Err(err) => r == Progress::<EnvStage, _>::Done(Err::<Vec<ResolvedInput>, _>(err)),
            }
        },
        EnvStage::Gas => {
            &&& stores_reply(before, reply, after)
            &&& match objects_of(reply)->0 {
                Ok(_) => exists|inner: Progress<InputStage, InputsResult>|
                    {
                        &&& #[trigger] input_step(
                            after,
                            info,
                            InputStage::Begin,
                            None,
                            after,
                            inner,
                        )
                        &&& env_after_inputs(info, inner, r)
                    },
                Err(err) => r == Progress::<EnvStage, _>::Done(Err::<Vec<ResolvedInput>, _>(err)),
            }
        },
        EnvStage::Inputs(stage) => exists|inner: Progress<InputStage, InputsResult>|
            {
                &&& #[trigger] input_step(before, info, stage, objects_of(reply), after, inner)
                &&& env_after_inputs(info, inner, r)
            },
        EnvStage::ChildRefs { inputs } => {
            &&& *after == *before
            &&& match reply->0->ChildRefs_0 {
                Ok(refs) => r.asks(
                    RequestView::VersionedObjects(refs@),
                    EnvStage::Children { inputs },
                ),
                Err(err) => r == Progress::<EnvStage, _>::Done(Err::<Vec<ResolvedInput>, _>(err)),
            }
        },
        EnvStage::Children { inputs } => {
            &&& stores_reply(before, reply, after)
            &&& match objects_of(reply)->0 {
                Ok(_) => r == Progress::<EnvStage, _>::Done(Ok::<_, LocalExecError>(inputs)),
                Err(err) => r == Progress::<EnvStage, _>::Done(Err::<Vec<ResolvedInput>, _>(err)),
            }
        },
    }
}

impl LocalExec {
    fn store_reply(&mut self, reply: Option<EnvReply>) -> (r: Result<(), LocalExecError>)
        requires
            reply matches Some(EnvReply::Objects(_)),
        ensures
            stores_reply(old(self), reply, final(self)),
            match objects_of(reply)->0 {
                Ok(_) => r is Ok,
                Err(err) => r == Err::<(), _>(err),
            },
    {
        match reply {
            Some(EnvReply::Objects(objects)) => match self.store_downloaded(objects) {
                Ok(_) => Ok(()),
                Err(err) => Err(err),
            },
            _ => unreached(),
        }
    }

    fn go_on_with_inputs(
        &self,
        tx_info: &OnChainTransactionInfo,
        inner: Progress<InputStage, InputsResult>,
    ) -> (r: Progress<EnvStage, InputsResult>)
        ensures
            env_after_inputs(tx_info, inner, r),
    {
        match inner {
            Progress::Ask(request, stage) => Progress::Ask(request, EnvStage::Inputs(stage)),
            Progress::Continue(stage) => Progress::Continue(EnvStage::Inputs(stage)),
            Progress::Done(Err(err)) => Progress::Done(Err(err)),
            Progress::Done(Ok(inputs)) => Progress::Ask(
                self.fetch_loaded_child_refs(&tx_info.tx_digest),
                EnvStage::ChildRefs { inputs },
            ),
        }
    }

    /// Downloads and stores what the execution of a transaction needs: the objects
    /// that it changed as they were before, its shared objects, those that pay for
    /// the gas, its inputs, and the child objects that it loaded. The result is the
    /// inputs with their objects.
    ///
    /// `at` is where the preparation stands and `reply` the answer to what was asked
    /// for last.
    pub fn initialize_execution_env_state(
        &mut self,
        tx_info: &OnChainTransactionInfo,
        at: EnvStage,
        reply: Option<EnvReply>,
    ) -> (r: Progress<EnvStage, InputsResult>)
        requires
            env_reply_fits(tx_info, old(self).storage@, at, reply),
        ensures
            env_step(old(self), tx_info, at, reply, final(self), r),
    {
        match at {
            EnvStage::Begin => {
                self.current_protocol_version = tx_info.protocol_version;
                Progress::Ask(
                    Request::VersionedObjects(copied(&tx_info.modified_at_versions)),
                    EnvStage::Modified,
                )
            },
            EnvStage::Modified => {
                match self.store_reply(reply) {
                    Ok(()) => Progress::Ask(
                        Request::VersionedObjects(object_keys(&tx_info.shared_object_refs)),
                        EnvStage::Shared,
                    ),
                    Err(err) => Progress::Done(Err(err)),
                }
            },
            EnvStage::Shared => {
                match self.store_reply(reply) {
                    Ok(()) => Progress::Ask(
                        Request::VersionedObjects(object_keys(&tx_info.gas)),
                        EnvStage::Gas,
                    ),
                    Err(err) => Progress::Done(Err(err)),
                }
            },
            EnvStage::Gas => {
                match self.store_reply(reply) {
                    Ok(()) => {},
                    Err(err) => {
                        return Progress::Done(Err(err));
                    },
                }
                let ghost stored = *self;
                let inner = self.resolve_download_input_objects(tx_info, InputStage::Begin, None);
                assert(input_step(&stored, tx_info, InputStage::Begin, None, self, inner));
                self.go_on_with_inputs(tx_info, inner)
            },
            EnvStage::Inputs(stage) => {
                let objects = match reply {
                    Some(EnvReply::Objects(objects)) => Some(objects),
                    _ => None,
                };
                let inner = self.resolve_download_input_objects(tx_info, stage, objects);
                self.go_on_with_inputs(tx_info, inner)
            },
            EnvStage::ChildRefs { inputs } => match reply {
                Some(EnvReply::ChildRefs(Ok(refs))) => Progress::Ask(
                    Request::VersionedObjects(refs),
                    EnvStage::Children { inputs },
                ),
                Some(EnvReply::ChildRefs(Err(err))) => Progress::Done(Err(err)),
                _ => unreached(),
            },
            EnvStage::Children { inputs } => {
                match self.store_reply(reply) {
                    Ok(()) => Progress::Done(Ok(inputs)),
                    Err(err) => Progress::Done(Err(err)),
                }
            },
        }
    }
}

/// No step of the preparation loses anything: what was stored stays stored, and
/// nothing else changes but the protocol version of the transaction.
pub proof fn law_setup_only_adds(
    before: &LocalExec,
    info: &OnChainTransactionInfo,
    at: EnvStage,
    reply: Option<EnvReply>,
    after: &LocalExec,
    r: Progress<EnvStage, InputsResult>,
)
    requires
        env_reply_fits(info, before.storage@, at, reply),
        env_step(before, info, at, reply, after, r),
    ensures
        before.storage@.is_kept_in(after.storage@),
        before.storage@.is_keyed() ==> after.storage@.is_keyed(),
        *after == (LocalExec {
            storage: after.storage,
            current_protocol_version: after.current_protocol_version,
            ..*before
        }),
        !(at is Begin) ==> after.current_protocol_version == before.current_protocol_version,
{
    assert forall|objs: Seq<Object>|
        before.storage@.is_kept_in(#[trigger] before.storage@.with_all_live(objs)) && (
        before.storage@.is_keyed() ==> before.storage@.with_all_live(objs).is_keyed()) by {
        let any = arbitrary();
        law_storage_only_grows(before.storage@, any, arbitrary(), objs);
        law_storage_stays_keyed(before.storage@, any, arbitrary(), objs);
    }
    assert forall|objs: Seq<Object>|
        before.storage@.is_kept_in(#[trigger] before.storage@.with_all_cached(objs)) && (
        before.storage@.is_keyed() ==> before.storage@.with_all_cached(objs).is_keyed()) by {
        let any = arbitrary();
        law_storage_only_grows(before.storage@, any, arbitrary(), objs);
        law_storage_stays_keyed(before.storage@, any, arbitrary(), objs);
    }
}

/// What the node gave is in the storage after the step that took it: each object
/// is live under its identifier and held at its version.
pub proof fn law_replies_are_stored(
    before: &LocalExec,
    info: &OnChainTransactionInfo,
    at: EnvStage,
    objs: Vec<Object>,
    i: int,
    after: &LocalExec,
    r: Progress<EnvStage, InputsResult>,
)
    requires
        at is Modified || at is Shared || at is Gas || at is Children || at == EnvStage::Inputs(
            InputStage::Owned,
        ),
        env_step(before, info, at, Some(EnvReply::Objects(Ok(objs))), after, r),
        0 <= i < objs@.len(),
    ensures
        after.storage@.live.contains_key(objs@[i].id),
        after.storage@.versions.contains_key(objs@[i].key()),
{
    law_live_objects_are_held(before.storage@, objs@, i);
}

/// Whether a list of objects holds one for each identifier and version.
pub open spec fn answers_all(
    keys: Seq<(ObjectID, SequenceNumber)>,
    objs: Seq<Object>,
) -> bool {
    forall|key: (ObjectID, SequenceNumber)| #[trigger]
        keys.contains(key) ==> exists|k: int| 0 <= k < objs.len() && (#[trigger] objs[k]).key()
            == key
}

/// When the inputs are resolved they are at hand: if no shared input was missing
/// at first and the node gave all immutable and owned objects that it was asked for, then
/// all inputs are in the storage, and caching packages leaves them there.
pub proof fn law_inputs_are_at_hand(
    before: StorageView,
    inputs: Seq<InputObjectKind>,
    owned: Seq<Object>,
    packages: Seq<Object>,
)
    requires
        forall|i: int| !(#[trigger] is_first_missing(inputs, before, i)),
        answers_all(owned_inputs(inputs), owned),
    ensures
        inputs_at_hand(inputs, before.with_all_live(owned).with_all_cached(packages)),
{
    let stored = before.with_all_live(owned);
    let cached = stored.with_all_cached(packages);
    let any = arbitrary();
    law_storage_only_grows(before, any, arbitrary(), owned);
    law_storage_only_grows(stored, any, arbitrary(), packages);
    assert forall|i: int| 0 <= i < inputs.len() implies is_at_hand(
        #[trigger] inputs[i],
        cached,
    ) by {
        match inputs[i] {
            InputObjectKind::MovePackage(_) => {},
            InputObjectKind::ImmOrOwnedMoveObject(o_ref) => {
                let key = (o_ref.0, o_ref.1);
                lemma_owned_inputs_are_listed(inputs, i);
                let k = choose|k: int| 0 <= k < owned.len() && (#[trigger] owned[k]).key() == key;
                law_live_objects_are_held(before, owned, k);
                assert(stored.versions.dom().contains(key));
            },
            InputObjectKind::SharedMoveObject { id, .. } => {
                if is_missing_shared(inputs[i], before) {
                    lemma_first_missing(inputs, before, i);
                }
                assert(before.live.dom().contains(id));
            },
        }
    }
}

proof fn lemma_owned_inputs_are_listed(inputs: Seq<InputObjectKind>, i: int)
    requires
        0 <= i < inputs.len(),
        inputs[i] is ImmOrOwnedMoveObject,
    ensures
        ({
            let o_ref = inputs[i]->ImmOrOwnedMoveObject_0;
            owned_inputs(inputs).contains((o_ref.0, o_ref.1))
        }),
    decreases inputs.len(),
{
    let o_ref = inputs[i]->ImmOrOwnedMoveObject_0;
    let key = (o_ref.0, o_ref.1);
    let all = owned_inputs(inputs);
    if i < inputs.len() - 1 {
        let shorter = inputs.drop_last();
        lemma_owned_inputs_are_listed(shorter, i);
        let k = owned_inputs(shorter).index_of(key);
        assert(all[k] == key);
    } else {
        assert(all.last() == key);
    }
}

proof fn lemma_first_missing(inputs: Seq<InputObjectKind>, storage: StorageView, i: int)
    requires
        0 <= i < inputs.len(),
        is_missing_shared(inputs[i], storage),
    ensures
        exists|k: int| #[trigger] is_first_missing(inputs, storage, k),
    decreases i,
{
    if exists|j: int| 0 <= j < i && is_missing_shared(#[trigger] inputs[j], storage) {
        let j = choose|j: int| 0 <= j < i && is_missing_shared(#[trigger] inputs[j], storage);
        lemma_first_missing(inputs, storage, j);
    } else {
        assert(is_first_missing(inputs, storage, i));
    }
}

/// Each input is resolved to the object that it names: an immutable or owned one to an
/// object with its identifier and version, a shared one to an object with its
/// identifier, and the inputs keep their order.
pub proof fn law_inputs_resolve_to_what_they_name(
    inputs: Seq<InputObjectKind>,
    storage: StorageView,
    latest: Seq<Object>,
    i: int,
)
    requires
        storage.is_keyed(),
        inputs_at_hand(inputs, storage),
        0 <= i < inputs.len(),
    ensures
        resolved_inputs(inputs, storage, latest).len() == inputs.len(),
        ({
            let (kind, obj) = resolved_inputs(inputs, storage, latest)[i];
            kind == inputs[i] && match kind {
                InputObjectKind::MovePackage(id) => storage.packages.contains_key(id) ==> obj
                    == storage.packages[id],
                InputObjectKind::ImmOrOwnedMoveObject(o_ref) => obj.key() == (o_ref.0, o_ref.1),
                InputObjectKind::SharedMoveObject { id, .. } => obj.id == id,
            }
        }),
{
    assert(is_at_hand(inputs[i], storage));
}

/// Identifiers and versions of references, one for one.
pub open spec fn are_keys_of(
    keys: Seq<(ObjectID, SequenceNumber)>,
    refs: Seq<ObjectRef>,
) -> bool {
    &&& keys.len() == refs.len()
    &&& forall|k: int| 0 <= k < refs.len() ==> #[trigger] keys[k] == (refs[k].0, refs[k].1)
}

/// The preparation asks for everything that the transaction needs, in this order: all objects that
/// it changed at their old versions, all its shared objects, all objects that pay for the gas,
/// its inputs, and all child objects that the node says it loaded. Nothing else is touched at the
/// beginning than the protocol version, and what the node cannot answer ends the preparation.
pub proof fn law_preparation_asks_for_everything(
    before: &LocalExec,
    info: &OnChainTransactionInfo,
    at: EnvStage,
    reply: Option<EnvReply>,
    after: &LocalExec,
    r: Progress<EnvStage, InputsResult>,
)
    requires
        env_reply_fits(info, before.storage@, at, reply),
        exists|session: &mut LocalExec|
            *session == *before && *final(session) == *after && #[trigger] call_ensures(
                LocalExec::initialize_execution_env_state,
                (session, info, at, reply),
                r,
            ),
    ensures
        at is Begin ==> {
            &&& *after == (LocalExec { current_protocol_version: info.protocol_version, ..*before })
            &&& r matches Progress::Ask(Request::VersionedObjects(keys), EnvStage::Modified)
            &&& keys@ == info.modified_at_versions@
        },
        at is Modified && (reply matches Some(EnvReply::Objects(Ok(_)))) ==> {
            &&& r matches Progress::Ask(Request::VersionedObjects(keys), EnvStage::Shared)
            &&& are_keys_of(keys@, info.shared_object_refs@)
        },
        at is Shared && (reply matches Some(EnvReply::Objects(Ok(_)))) ==> {
            &&& r matches Progress::Ask(Request::VersionedObjects(keys), EnvStage::Gas)
            &&& are_keys_of(keys@, info.gas@)
        },
        at is Gas && (reply matches Some(EnvReply::Objects(Ok(_)))) ==> {
            ||| r matches Progress::Ask(
                Request::VersionedObjects(keys),
                EnvStage::Inputs(InputStage::Owned),
            ) && keys@ == info.input_objects@.filter(
                |kind: InputObjectKind| kind is ImmOrOwnedMoveObject,
            ).map_values(
                |kind: InputObjectKind|
                    (kind->ImmOrOwnedMoveObject_0.0, kind->ImmOrOwnedMoveObject_0.1),
            )
            ||| r matches Progress::Done(
                Err(LocalExecError::InternalCacheInvariantViolation { id, version: None }),
            ) && !after.storage@.live.contains_key(id) && exists|k: int|
                0 <= k < info.input_objects@.len() && (
                #[trigger] info.input_objects@[k] matches InputObjectKind::SharedMoveObject {
                    id: shared,
                    ..
                } && shared == id)
        },
        at matches EnvStage::ChildRefs { inputs } ==> (reply matches Some(
            EnvReply::ChildRefs(Ok(refs)),
        ) ==> {
            &&& *after == *before
            &&& r matches Progress::Ask(
                Request::VersionedObjects(keys),
                EnvStage::Children { inputs: kept },
            )
            &&& kept == inputs
            &&& keys@ == refs@
        }),
        at matches EnvStage::Children { inputs } ==> (reply matches Some(EnvReply::Objects(Ok(_)))
            ==> r == Progress::<EnvStage, _>::Done(Ok::<_, LocalExecError>(inputs))),
        !(at is Inputs) ==> (reply matches Some(EnvReply::Objects(Err(err))) ==> *after == *before
            && r == Progress::<EnvStage, _>::Done(Err::<Vec<ResolvedInput>, _>(err))),
        reply matches Some(EnvReply::ChildRefs(Err(err))) ==> *after == *before && r
            == Progress::<EnvStage, _>::Done(Err::<Vec<ResolvedInput>, _>(err)),
{
    lemma_inputs_by_kind(info.input_objects@);
    if at is Gas && (reply matches Some(EnvReply::Objects(Ok(_)))) {
        let inputs = info.input_objects@;
        let storage = after.storage@;
        if exists|i: int| #[trigger] is_first_missing(inputs, storage, i) {
            let i = choose|i: int| #[trigger] is_first_missing(inputs, storage, i);
            assert(is_missing_shared(inputs[i], storage));
        }
    }
}

/// The inputs are asked for when what comes before is there, and when they are resolved the child
/// objects of this very transaction are asked for.
pub proof fn law_preparation_goes_through_the_inputs(
    before: &LocalExec,
    info: &OnChainTransactionInfo,
    stage: InputStage,
    reply: Option<EnvReply>,
    after: &LocalExec,
    r: Progress<EnvStage, InputsResult>,
)
    requires
        env_reply_fits(info, before.storage@, EnvStage::Inputs(stage), reply),
        exists|session: &mut LocalExec|
            *session == *before && *final(session) == *after && #[trigger] call_ensures(
                LocalExec::initialize_execution_env_state,
                (session, info, EnvStage::Inputs(stage), reply),
                r,
            ),
    ensures
        match r {
            Progress::Ask(request, EnvStage::Inputs(_)) => !(stage is Begin),
            Progress::Ask(request, EnvStage::ChildRefs { inputs }) => request
                == Request::LoadedChildObjects(info.tx_digest) && stage is Resolve
                && inputs@.len() == info.input_objects@.len(),
            Progress::Ask(_, _) => false,
            Progress::Continue(next) => stage is LatestPackages && (
            next matches EnvStage::Inputs(InputStage::Resolve { .. })),
            Progress::Done(result) => result is Err,
        },
{
}

/// Whether objects are exactly those with some identifiers and versions, one for one.
pub open spec fn answers_exactly(
    keys: Seq<(ObjectID, SequenceNumber)>,
    objs: Seq<Object>,
) -> bool {
    &&& objs.len() == keys.len()
    &&& forall|k: int|
        0 <= k < objs.len() ==> (#[trigger] objs[k]).id == keys[k].0 && objs[k].version == keys[k].1
}

/// Whether objects are those with some identifiers, one for one.
pub open spec fn answers_ids(ids: Seq<ObjectID>, objs: Seq<Object>) -> bool {
    &&& objs.len() == ids.len()
    &&& forall|k: int| 0 <= k < objs.len() ==> (#[trigger] objs[k]).id == ids[k]
}

/// Whether a reply is what a node that has everything answers to what was asked for before it.
pub open spec fn is_full_answer(
    asked: Progress<EnvStage, InputsResult>,
    reply: Option<EnvReply>,
) -> bool {
    match asked {
        Progress::Ask(Request::VersionedObjects(keys), _) => reply matches Some(
            EnvReply::Objects(Ok(objs)),
        ) && answers_exactly(keys@, objs@),
        Progress::Ask(Request::LatestObjects(ids), _) => reply matches Some(
            EnvReply::Objects(Ok(objs)),
        ) && answers_ids(ids@, objs@),
        Progress::Ask(Request::LoadedChildObjects(_), _) => reply matches Some(
            EnvReply::ChildRefs(Ok(_)),
        ),
        Progress::Continue(_) => reply is None,
        _ => true,
    }
}

/// Whether stages, replies and results are those of one preparation from its beginning to its
/// end, with a node that has everything: each step goes on where the one before left off, with
/// the answer to what that one asked for.
pub open spec fn is_preparation(
    stages: Seq<EnvStage>,
    replies: Seq<Option<EnvReply>>,
    results: Seq<Progress<EnvStage, InputsResult>>,
    inputs: Vec<ResolvedInput>,
) -> bool {
    &&& stages.len() == results.len()
    &&& replies.len() == results.len()
    &&& results.len() > 0
    &&& stages[0] is Begin
    &&& forall|i: int| 0 <= i < results.len() - 1 ==> leads_to(#[trigger] results[i], stages[i + 1])
    &&& forall|i: int|
        0 <= i < results.len() - 1 ==> is_full_answer(#[trigger] results[i], replies[i + 1])
    &&& results.last() == Progress::<EnvStage, _>::Done(Ok::<_, LocalExecError>(inputs))
}

/// Whether a step goes on at a stage.
pub open spec fn leads_to(result: Progress<EnvStage, InputsResult>, stage: EnvStage) -> bool {
    match result {
        Progress::Ask(_, next) => next == stage,
        Progress::Continue(next) => next == stage,
        Progress::Done(_) => false,
    }
}

/// Whether one step of the preparation turns one session into the next.
spec fn is_step(
    info: &OnChainTransactionInfo,
    states: Seq<LocalExec>,
    stages: Seq<EnvStage>,
    replies: Seq<Option<EnvReply>>,
    results: Seq<Progress<EnvStage, InputsResult>>,
    i: int,
) -> bool {
    &&& env_reply_fits(info, states[i].storage@, stages[i], replies[i])
    &&& env_step(&states[i], info, stages[i], replies[i], &states[i + 1], results[i])
}

/// Whether the steps of the preparation turn each session into the next.
spec fn are_steps(
    info: &OnChainTransactionInfo,
    states: Seq<LocalExec>,
    stages: Seq<EnvStage>,
    replies: Seq<Option<EnvReply>>,
    results: Seq<Progress<EnvStage, InputsResult>>,
) -> bool {
    forall|i: int|
        0 <= i < results.len() ==> #[trigger] is_step(info, states, stages, replies, results, i)
}

proof fn lemma_env_call(
    before: &LocalExec,
    info: &OnChainTransactionInfo,
    at: EnvStage,
    reply: Option<EnvReply>,
    after: &LocalExec,
    r: Progress<EnvStage, InputsResult>,
)
    requires
        env_reply_fits(info, before.storage@, at, reply),
        exists|session: &mut LocalExec|
            *session == *before && *final(session) == *after && #[trigger] call_ensures(
                LocalExec::initialize_execution_env_state,
                (session, info, at, reply),
                r,
            ),
    ensures
        env_step(before, info, at, reply, after, r),
{
}

/// Whether what is asked for becomes live when it comes.
spec fn becomes_live(stage: EnvStage) -> bool {
    ||| stage is Modified
    ||| stage is Shared
    ||| stage is Gas
    ||| stage is Children
    ||| stage == EnvStage::Inputs(InputStage::Owned)
}

/// What a step of the preparation does to the storage, and what it can ask for.
proof fn lemma_env_step(
    before: &LocalExec,
    info: &OnChainTransactionInfo,
    at: EnvStage,
    reply: Option<EnvReply>,
    after: &LocalExec,
    r: Progress<EnvStage, InputsResult>,
)
    requires
        env_reply_fits(info, before.storage@, at, reply),
        env_step(before, info, at, reply, after, r),
    ensures
        becomes_live(at) ==> (reply matches Some(EnvReply::Objects(Ok(objs))) ==> after.storage@
            == before.storage@.with_all_live(objs@)),
        !becomes_live(at) ==> after.storage@.live == before.storage@.live,
        r matches Progress::Ask(request, next) ==> {
            &&& becomes_live(next) ==> request is VersionedObjects
            &&& request is VersionedObjects ==> becomes_live(next) || next == EnvStage::Inputs(
                InputStage::SystemPackages,
            )
        },
        r matches Progress::Continue(next) ==> !becomes_live(next),
        r matches Progress::Done(Ok(inputs)) ==> at == (EnvStage::Children { inputs }),
{
    let storage = before.storage@;
    assert forall|objs: Seq<Object>| #[trigger]
        storage.with_all_cached(objs).live == storage.live by {
        law_caching_leaves_live_objects(storage, objs);
    }
}

/// What was stored at one time is stored at any later time.
proof fn lemma_kept(
    info: &OnChainTransactionInfo,
    states: Seq<LocalExec>,
    stages: Seq<EnvStage>,
    replies: Seq<Option<EnvReply>>,
    results: Seq<Progress<EnvStage, InputsResult>>,
    a: int,
    b: int,
)
    requires
        states.len() == results.len() + 1,
        are_steps(info, states, stages, replies, results),
        0 <= a <= b <= results.len(),
    ensures
        states[a].storage@.is_kept_in(states[b].storage@),
        states[a].storage@.is_keyed() ==> states[b].storage@.is_keyed(),
        states[b].protocol_version_system_package_table
            == states[a].protocol_version_system_package_table,
    decreases b - a,
{
    if a < b {
        lemma_kept(info, states, stages, replies, results, a, b - 1);
        let i = b - 1;
        assert(is_step(info, states, stages, replies, results, i));
        law_setup_only_adds(
            &states[i],
            info,
            stages[i],
            replies[i],
            &states[i + 1],
            results[i],
        );
    }
}

/// Where objects become live, one of them is the live object with its identifier.
proof fn lemma_live_is_one_of(before: StorageView, objs: Seq<Object>, id: ObjectID) -> (k: int)
    requires
        exists|j: int| 0 <= j < objs.len() && (#[trigger] objs[j]).id == id,
    ensures
        0 <= k < objs.len(),
        objs[k].id == id,
        before.with_all_live(objs).live.contains_pair(id, objs[k]),
    decreases objs.len(),
{
    let shorter = objs.drop_last();
    if objs.last().id == id {
        objs.len() - 1
    } else {
        let j = choose|j: int| 0 <= j < objs.len() && (#[trigger] objs[j]).id == id;
        assert(shorter[j].id == id);
        lemma_live_is_one_of(before, shorter, id)
    }
}

/// Whether an object is asked for at no other version than one.
pub open spec fn asked_at_one_version(
    results: Seq<Progress<EnvStage, InputsResult>>,
    key: (ObjectID, SequenceNumber),
) -> bool {
    forall|i: int, k: int|
        0 <= i < results.len() && (#[trigger] results[i] matches Progress::Ask(
            Request::VersionedObjects(keys),
            _,
        ) && 0 <= k < keys@.len() && (#[trigger] asked_key(results[i], k)).0 == key.0)
            ==> asked_key(results[i], k) == key
}

/// One of the identifiers and versions that a step asks for.
pub open spec fn asked_key(result: Progress<EnvStage, InputsResult>, k: int) -> (
    ObjectID,
    SequenceNumber,
) {
    match result {
        Progress::Ask(Request::VersionedObjects(keys), _) => keys@[k],
        _ => arbitrary(),
    }
}

/// Whether a step asks for an object at a version, to make it live.
pub open spec fn asks_live(
    result: Progress<EnvStage, InputsResult>,
    key: (ObjectID, SequenceNumber),
) -> bool {
    result matches Progress::Ask(Request::VersionedObjects(keys), next) && !(
    next matches EnvStage::Inputs(InputStage::SystemPackages)) && keys@.contains(key)
}

proof fn lemma_asked_is_live(
    info: &OnChainTransactionInfo,
    states: Seq<LocalExec>,
    stages: Seq<EnvStage>,
    replies: Seq<Option<EnvReply>>,
    results: Seq<Progress<EnvStage, InputsResult>>,
    inputs: Vec<ResolvedInput>,
    i: int,
    key: (ObjectID, SequenceNumber),
    b: int,
)
    requires
        states.len() == results.len() + 1,
        are_steps(info, states, stages, replies, results),
        is_preparation(stages, replies, results, inputs),
        0 <= i < results.len() - 1,
        asks_live(results[i], key),
        i + 2 <= b <= results.len(),
    ensures
        states[b].storage@.live.contains_key(key.0),
        states[b].storage@.versions.contains_key(key),
        asked_at_one_version(results, key) ==> states[b].storage@.live[key.0].version == key.1
            && states[b].storage@.live[key.0].id == key.0,
    decreases b,
{
    if b > i + 2 {
        lemma_asked_is_live(
            info,
            states,
            stages,
            replies,
            results,
            inputs,
            i,
            key,
            b - 1,
        );
        lemma_kept(info, states, stages, replies, results, b - 1, b);
        let j = b - 1;
        assert(is_step(info, states, stages, replies, results, j));
        lemma_env_step(&states[j], info, stages[j], replies[j], &states[j + 1], results[j]);
        if becomes_live(stages[j]) && asked_at_one_version(results, key) {
            let h = j - 1;
            assert(is_step(info, states, stages, replies, results, h));
            lemma_env_step(&states[h], info, stages[h], replies[h], &states[h + 1], results[h]);
            assert(leads_to(results[h], stages[h + 1]));
            assert(is_full_answer(results[h], replies[h + 1]));
            let keys = results[h]->Ask_0->VersionedObjects_0@;
            let objs = replies[j]->0->Objects_0->Ok_0@;
            if exists|l: int| 0 <= l < objs.len() && (#[trigger] objs[l]).id == key.0 {
                let l = lemma_live_is_one_of(states[j].storage@, objs, key.0);
                assert(asked_key(results[h], l) == keys[l]);
            } else {
                law_storing_keeps_other_entries(states[j].storage@, objs, key.0, key.1);
            }
        }
    } else {
        let j = i + 1;
        assert(is_step(info, states, stages, replies, results, i));
        lemma_env_step(&states[i], info, stages[i], replies[i], &states[i + 1], results[i]);
        assert(is_step(info, states, stages, replies, results, j));
        lemma_env_step(&states[j], info, stages[j], replies[j], &states[j + 1], results[j]);
        assert(leads_to(results[i], stages[i + 1]));
        assert(is_full_answer(results[i], replies[i + 1]));
        let keys = results[i]->Ask_0->VersionedObjects_0@;
        let objs = replies[j]->0->Objects_0->Ok_0@;
        let k = keys.index_of(key);
        assert(objs[k].id == keys[k].0);
        law_live_objects_are_held(states[j].storage@, objs, k);
        assert(objs[k].key() == key);
        let l = lemma_live_is_one_of(states[j].storage@, objs, key.0);
        assert(asked_key(results[i], l) == keys[l]);
    }
}

/// The first steps of a preparation.
proof fn lemma_preparation_begins(
    info: &OnChainTransactionInfo,
    states: Seq<LocalExec>,
    stages: Seq<EnvStage>,
    replies: Seq<Option<EnvReply>>,
    results: Seq<Progress<EnvStage, InputsResult>>,
    inputs: Vec<ResolvedInput>,
    key: (ObjectID, SequenceNumber),
)
    requires
        states.len() == results.len() + 1,
        are_steps(info, states, stages, replies, results),
        is_preparation(stages, replies, results, inputs),
    ensures
        results.len() > 4,
        info.modified_at_versions@.contains(key) ==> asks_live(results[0], key),
        keys_of(info.shared_object_refs@).contains(key) ==> asks_live(results[1], key),
        keys_of(info.gas@).contains(key) ==> asks_live(results[2], key),
        owned_inputs(info.input_objects@).contains(key) ==> asks_live(results[3], key),
{
    assert(is_step(info, states, stages, replies, results, 0));
    assert(leads_to(results[0], stages[1]));
    assert(is_full_answer(results[0], replies[1]));
    assert(stages[1] is Modified);
    assert(is_step(info, states, stages, replies, results, 1));
    assert(leads_to(results[1], stages[2]));
    assert(is_full_answer(results[1], replies[2]));
    assert(stages[2] is Shared);
    assert(is_step(info, states, stages, replies, results, 2));
    assert(leads_to(results[2], stages[3]));
    assert(is_full_answer(results[2], replies[3]));
    assert(stages[3] is Gas);
    assert(is_step(info, states, stages, replies, results, 3));
    assert(leads_to(results[3], stages[4]));
}

/// When a preparation is over and the node had everything, every object is in the storage that
/// the transaction changed, shared, paid with or took as an immutable or owned input, at the
/// version that the transaction saw. It is also live at that version, unless the same object was
/// asked for at another version too.
pub proof fn law_a_prepared_session_has_what_it_needs(
    info: &OnChainTransactionInfo,
    states: Seq<LocalExec>,
    stages: Seq<EnvStage>,
    replies: Seq<Option<EnvReply>>,
    results: Seq<Progress<EnvStage, InputsResult>>,
    inputs: Vec<ResolvedInput>,
    id: ObjectID,
    version: SequenceNumber,
)
    requires
        states.len() == results.len() + 1,
        forall|i: int|
            0 <= i < results.len() ==> {
                &&& env_reply_fits(info, states[i].storage@, stages[i], replies[i])
                &&& exists|session: &mut LocalExec|
                    *session == states[i] && *final(session) == states[i + 1]
                        && #[trigger] call_ensures(
                        LocalExec::initialize_execution_env_state,
                        (session, info, stages[i], replies[i]),
                        #[trigger] results[i],
                    )
            },
        is_preparation(stages, replies, results, inputs),
        states[0].storage@.is_keyed(),
        ({
            ||| info.modified_at_versions@.contains((id, version))
            ||| exists|k: int|
                0 <= k < info.shared_object_refs@.len() && (#[trigger] info.shared_object_refs@[k]).0
                    == id && info.shared_object_refs@[k].1 == version
            ||| exists|k: int|
                0 <= k < info.gas@.len() && (#[trigger] info.gas@[k]).0 == id && info.gas@[k].1
                    == version
            ||| exists|k: int|
                0 <= k < info.input_objects@.len() && (
                #[trigger] info.input_objects@[k] matches InputObjectKind::ImmOrOwnedMoveObject(r)
                    && r.0 == id && r.1 == version)
        }),
    ensures
        ({
            let storage = states.last().storage@;
            &&& storage.versions.contains_key((id, version))
            &&& storage.versions[(id, version)].id == id
            &&& storage.versions[(id, version)].version == version
            &&& storage.live.contains_key(id)
            &&& asked_at_one_version(results, (id, version)) ==> storage.live[id].id == id
                && storage.live[id].version == version
        }),
{
    let n = results.len() as int;
    let key = (id, version);
    assert forall|i: int| 0 <= i < n implies #[trigger] is_step(
        info,
        states,
        stages,
        replies,
        results,
        i,
    ) by {
        lemma_env_call(
            &states[i],
            info,
            stages[i],
            replies[i],
            &states[i + 1],
            results[i],
        );
    }
    lemma_preparation_begins(info, states, stages, replies, results, inputs, key);
    let i: int = if info.modified_at_versions@.contains(key) {
        0
    } else if exists|k: int|
        0 <= k < info.shared_object_refs@.len() && (#[trigger] info.shared_object_refs@[k]).0 == id
            && info.shared_object_refs@[k].1 == version {
        let k = choose|k: int|
            0 <= k < info.shared_object_refs@.len() && (
            #[trigger] info.shared_object_refs@[k]).0 == id && info.shared_object_refs@[k].1
                == version;
        assert(keys_of(info.shared_object_refs@)[k] == key);
        1
    } else if exists|k: int|
        0 <= k < info.gas@.len() && (#[trigger] info.gas@[k]).0 == id && info.gas@[k].1
            == version {
        let k = choose|k: int|
            0 <= k < info.gas@.len() && (#[trigger] info.gas@[k]).0 == id && info.gas@[k].1
                == version;
        assert(keys_of(info.gas@)[k] == key);
        2
    } else {
        let k = choose|k: int|
            0 <= k < info.input_objects@.len() && (
            #[trigger] info.input_objects@[k] matches InputObjectKind::ImmOrOwnedMoveObject(r)
                && r.0 == id && r.1 == version);
        lemma_owned_inputs_are_listed(info.input_objects@, k);
        3
    };
    lemma_asked_is_live(info, states, stages, replies, results, inputs, i, key, n);
    lemma_kept(info, states, stages, replies, results, 0, n);
}

/// Whether each package stands under its identifier.
pub open spec fn packages_are_keyed(storage: StorageView) -> bool {
    forall|id: ObjectID| #[trigger]
        storage.packages.contains_key(id) ==> storage.packages[id].id == id
}

proof fn lemma_packages_stay_keyed(before: StorageView, objs: Seq<Object>)
    requires
        packages_are_keyed(before),
    ensures
        packages_are_keyed(before.with_all_live(objs)),
        packages_are_keyed(before.with_all_cached(objs)),
    decreases objs.len(),
{
    if objs.len() > 0 {
        lemma_packages_stay_keyed(before, objs.drop_last());
    }
}

/// What the search for packages has found so far are the packages among the inputs, in their order.
spec fn finds_packages(packages: Seq<ObjectID>, found: Seq<Object>) -> bool {
    &&& found.len() <= packages.len()
    &&& forall|k: int| 0 <= k < found.len() ==> (#[trigger] found[k]).id == packages[k]
}

/// What the search for packages knows once the reply to its last request is there.
spec fn found_by_now(latest: Seq<Object>, reply: Option<EnvReply>) -> Seq<Object> {
    match reply {
        Some(EnvReply::Objects(Ok(objs))) => latest.push(objs@.last()),
        _ => latest,
    }
}

proof fn lemma_packages_found(
    info: &OnChainTransactionInfo,
    states: Seq<LocalExec>,
    stages: Seq<EnvStage>,
    replies: Seq<Option<EnvReply>>,
    results: Seq<Progress<EnvStage, InputsResult>>,
    inputs: Vec<ResolvedInput>,
    j: int,
)
    requires
        states.len() == results.len() + 1,
        are_steps(info, states, stages, replies, results),
        is_preparation(stages, replies, results, inputs),
        packages_are_keyed(states[0].storage@),
        0 <= j < results.len(),
    ensures
        packages_are_keyed(states[j].storage@),
        stages[j] matches EnvStage::Inputs(InputStage::Resolve { latest }) ==> finds_packages(
            package_inputs(info.input_objects@),
            found_by_now(latest@, replies[j]),
        ) && (replies[j] is None || (replies[j] matches Some(EnvReply::Objects(Ok(_))))),
    decreases j,
{
    if j > 0 {
        let h = j - 1;
        let packages = package_inputs(info.input_objects@);
        lemma_packages_found(info, states, stages, replies, results, inputs, h);
        assert(is_step(info, states, stages, replies, results, h));
        assert(is_step(info, states, stages, replies, results, j));
        assert(leads_to(results[h], stages[h + 1]));
        assert(is_full_answer(results[h], replies[h + 1]));
        let storage = states[h].storage@;
        assert forall|objs: Seq<Object>|
            packages_are_keyed(#[trigger] storage.with_all_live(objs)) by {
            lemma_packages_stay_keyed(storage, objs);
        }
        assert forall|objs: Seq<Object>|
            packages_are_keyed(#[trigger] storage.with_all_cached(objs)) by {
            lemma_packages_stay_keyed(storage, objs);
        }
        if let EnvStage::Inputs(InputStage::Resolve { latest }) = stages[j] {
            lemma_search_goes_on(
                &states[h],
                info,
                stages[h],
                replies[h],
                &states[j],
                results[h],
            );
            if results[h] is Ask {
                let objs = replies[j]->0->Objects_0->Ok_0@;
                assert(objs[0].id == packages[latest@.len() as int]);
            }
        }
    }
}

/// How the search for packages goes on.
proof fn lemma_search_goes_on(
    before: &LocalExec,
    info: &OnChainTransactionInfo,
    at: EnvStage,
    reply: Option<EnvReply>,
    after: &LocalExec,
    r: Progress<EnvStage, InputsResult>,
)
    requires
        env_reply_fits(info, before.storage@, at, reply),
        env_step(before, info, at, reply, after, r),
    ensures
        r matches Progress::Continue(EnvStage::Inputs(InputStage::Resolve { latest }))
            ==> latest@.len() == 0,
        r matches Progress::Ask(request, EnvStage::Inputs(InputStage::Resolve { latest })) ==> {
            let packages = package_inputs(info.input_objects@);
            &&& latest@.len() < packages.len()
            &&& request matches Request::LatestObjects(ids)
            &&& ids@ == seq![packages[latest@.len() as int]]
            &&& at matches EnvStage::Inputs(InputStage::Resolve { latest: seen })
            &&& (reply matches Some(EnvReply::Objects(Ok(_)))) || reply is None ==> latest@
                == found_by_now(seen@, reply)
        },
        r matches Progress::Ask(_, EnvStage::ChildRefs { inputs }) ==> {
            &&& at matches EnvStage::Inputs(InputStage::Resolve { latest })
            &&& (reply matches Some(EnvReply::Objects(Ok(_)))) || reply is None ==> {
                let found = found_by_now(latest@, reply);
                &&& found.len() >= package_inputs(info.input_objects@).len()
                &&& inputs@ == resolved_inputs(info.input_objects@, before.storage@, found)
            }
        },
        r matches Progress::Ask(_, EnvStage::Children { inputs }) ==> at == (EnvStage::ChildRefs {
            inputs,
        }),
        r matches Progress::Done(Ok(inputs)) ==> at == (EnvStage::Children { inputs }),
{
}

/// When a preparation is over and the node had everything, the result holds the inputs of the
/// transaction in their order, each with the object that it names: an immutable or owned
/// one at its version, a shared one as it is live, a package as the package. A shared object
/// that was asked for at one version only is at that version.
pub proof fn law_a_prepared_session_has_the_inputs(
    info: &OnChainTransactionInfo,
    states: Seq<LocalExec>,
    stages: Seq<EnvStage>,
    replies: Seq<Option<EnvReply>>,
    results: Seq<Progress<EnvStage, InputsResult>>,
    inputs: Vec<ResolvedInput>,
    i: int,
    version: SequenceNumber,
)
    requires
        states.len() == results.len() + 1,
        forall|i: int|
            0 <= i < results.len() ==> {
                &&& env_reply_fits(info, states[i].storage@, stages[i], replies[i])
                &&& exists|session: &mut LocalExec|
                    *session == states[i] && *final(session) == states[i + 1]
                        && #[trigger] call_ensures(
                        LocalExec::initialize_execution_env_state,
                        (session, info, stages[i], replies[i]),
                        #[trigger] results[i],
                    )
            },
        is_preparation(stages, replies, results, inputs),
        states[0].storage@.is_keyed(),
        packages_are_keyed(states[0].storage@),
        0 <= i < info.input_objects@.len(),
    ensures
        inputs@.len() == info.input_objects@.len(),
        inputs@[i].0 == info.input_objects@[i],
        match info.input_objects@[i] {
            InputObjectKind::MovePackage(id) => inputs@[i].1.id == id,
            InputObjectKind::ImmOrOwnedMoveObject(r) => inputs@[i].1.id == r.0
                && inputs@[i].1.version == r.1,
            InputObjectKind::SharedMoveObject { id, .. } => inputs@[i].1.id == id && ((exists|
                k: int,
            |
                0 <= k < info.shared_object_refs@.len() && (
                #[trigger] info.shared_object_refs@[k]).0 == id && info.shared_object_refs@[k].1
                    == version) && asked_at_one_version(results, (id, version))
                ==> inputs@[i].1.version == version),
        },
{
    let n = results.len() as int;
    let kinds = info.input_objects@;
    assert forall|i: int| 0 <= i < n implies #[trigger] is_step(
        info,
        states,
        stages,
        replies,
        results,
        i,
    ) by {
        lemma_env_call(
            &states[i],
            info,
            stages[i],
            replies[i],
            &states[i + 1],
            results[i],
        );
    }
    let none = arbitrary();
    lemma_preparation_begins(info, states, stages, replies, results, inputs, none);
    let (c, b, a) = (n - 1, n - 2, n - 3);
    assert(is_step(info, states, stages, replies, results, c));
    lemma_search_goes_on(&states[c], info, stages[c], replies[c], &states[c + 1], results[c]);
    assert(leads_to(results[b], stages[b + 1]));
    assert(is_step(info, states, stages, replies, results, b));
    lemma_search_goes_on(&states[b], info, stages[b], replies[b], &states[b + 1], results[b]);
    lemma_env_step(&states[b], info, stages[b], replies[b], &states[b + 1], results[b]);
    assert(stages[b] == (EnvStage::ChildRefs { inputs }));
    assert(leads_to(results[a], stages[a + 1]));
    assert(is_step(info, states, stages, replies, results, a));
    lemma_search_goes_on(&states[a], info, stages[a], replies[a], &states[a + 1], results[a]);
    lemma_packages_found(info, states, stages, replies, results, inputs, a);
    lemma_kept(info, states, stages, replies, results, 0, a);
    let storage = states[a].storage@;
    let latest = stages[a]->Inputs_0->latest@;
    let found = found_by_now(latest, replies[a]);
    assert(inputs@ == resolved_inputs(kinds, storage, found));
    assert(is_at_hand(kinds[i], storage));
    match kinds[i] {
        InputObjectKind::MovePackage(id) => {
            lemma_package_place(kinds, i);
            let k = package_inputs(kinds.take(i)).len() as int;
            assert(found[k].id == package_inputs(kinds)[k]);
        },
        InputObjectKind::ImmOrOwnedMoveObject(r) => {},
        InputObjectKind::SharedMoveObject { id, .. } => {
            if exists|k: int|
                0 <= k < info.shared_object_refs@.len() && (
                #[trigger] info.shared_object_refs@[k]).0 == id && info.shared_object_refs@[k].1
                    == version {
                let k = choose|k: int|
                    0 <= k < info.shared_object_refs@.len() && (
                    #[trigger] info.shared_object_refs@[k]).0 == id && info.shared_object_refs@[k].1
                        == version;
                assert(keys_of(info.shared_object_refs@)[k] == (id, version));
                lemma_preparation_begins(
                    info,
                    states,
                    stages,
                    replies,
                    results,
                    inputs,
                    (id, version),
                );
                lemma_resolve_is_late(info, states, stages, replies, results, inputs, a);
                lemma_asked_is_live(
                    info,
                    states,
                    stages,
                    replies,
                    results,
                    inputs,
                    1,
                    (id, version),
                    a,
                );
            }
        },
    }
}

/// The first four stages are not those in which packages are searched for.
proof fn lemma_resolve_is_late(
    info: &OnChainTransactionInfo,
    states: Seq<LocalExec>,
    stages: Seq<EnvStage>,
    replies: Seq<Option<EnvReply>>,
    results: Seq<Progress<EnvStage, InputsResult>>,
    inputs: Vec<ResolvedInput>,
    a: int,
)
    requires
        states.len() == results.len() + 1,
        are_steps(info, states, stages, replies, results),
        is_preparation(stages, replies, results, inputs),
        0 <= a < results.len(),
        stages[a] matches EnvStage::Inputs(InputStage::Resolve { .. }),
    ensures
        a > 3,
{
    assert(is_step(info, states, stages, replies, results, 0));
    assert(leads_to(results[0], stages[1]));
    assert(is_full_answer(results[0], replies[1]));
    assert(stages[1] is Modified);
    assert(is_step(info, states, stages, replies, results, 1));
    assert(leads_to(results[1], stages[2]));
    assert(is_full_answer(results[1], replies[2]));
    assert(stages[2] is Shared);
    assert(is_step(info, states, stages, replies, results, 2));
    assert(leads_to(results[2], stages[3]));
    assert(stages[3] is Gas);
}

/// Whether all that the node gives for the packages of the system are packages.
pub open spec fn gives_packages(
    replies: Seq<Option<EnvReply>>,
    results: Seq<Progress<EnvStage, InputsResult>>,
) -> bool {
    forall|i: int, k: int|
        0 <= i < results.len() - 1 && (#[trigger] results[i] matches Progress::Ask(
            _,
            EnvStage::Inputs(InputStage::SystemPackages),
        ) && 0 <= k < given(replies[i + 1]).len()) ==> *(#[trigger] given(
            replies[i + 1],
        )[k]).data is Package
}

/// The objects that a reply gives.
pub open spec fn given(reply: Option<EnvReply>) -> Seq<Object> {
    match reply {
        Some(EnvReply::Objects(Ok(objs))) => objs@,
        _ => Seq::empty(),
    }
}

proof fn lemma_system_found(
    info: &OnChainTransactionInfo,
    states: Seq<LocalExec>,
    stages: Seq<EnvStage>,
    replies: Seq<Option<EnvReply>>,
    results: Seq<Progress<EnvStage, InputsResult>>,
    inputs: Vec<ResolvedInput>,
    table: Map<ObjectID, SequenceNumber>,
    id: ObjectID,
    j: int,
)
    requires
        states.len() == results.len() + 1,
        are_steps(info, states, stages, replies, results),
        is_preparation(stages, replies, results, inputs),
        gives_packages(replies, results),
        states[0].protocol_version_system_package_table@.contains_key(info.protocol_version),
        table == states[0].protocol_version_system_package_table@[info.protocol_version]@,
        is_listing(table, listing(table)),
        table.contains_key(id),
        0 <= j < results.len(),
    ensures
        stages[j] == EnvStage::Inputs(InputStage::SystemPackages) ==> (replies[j] matches Some(
            EnvReply::Objects(Ok(objs)),
        ) && are_system_packages(table, objs@)),
        stages[j] matches EnvStage::Inputs(InputStage::LatestPackages { system })
            ==> are_system_packages(table, system@) && (replies[j] matches Some(
            EnvReply::Objects(Ok(_)),
        )),
        stages[j] matches EnvStage::Inputs(InputStage::Resolve { .. })
            ==> states[j].storage@.packages.contains_key(id) && states[j].storage@.packages[id].id
            == id && states[j].storage@.packages[id].version == table[id],
    decreases j,
{
    if j > 0 {
        let h = j - 1;
        lemma_system_found(
            info,
            states,
            stages,
            replies,
            results,
            inputs,
            table,
            id,
            h,
        );
        lemma_kept(info, states, stages, replies, results, 0, h);
        assert(is_step(info, states, stages, replies, results, h));
        assert(leads_to(results[h], stages[h + 1]));
        assert(is_full_answer(results[h], replies[h + 1]));
        lemma_packages_step(
            &states[h],
            info,
            stages[h],
            replies[h],
            &states[j],
            results[h],
        );
        if stages[j] == EnvStage::Inputs(InputStage::SystemPackages) {
            let objs = given(replies[h + 1]);
            assert forall|k: int| 0 <= k < objs.len() implies *(#[trigger] objs[k]).data
                is Package by {
                assert(results[h] is Ask);
                assert(*given(replies[h + 1])[k].data is Package);
            }
        }
        if let EnvStage::Inputs(InputStage::Resolve { .. }) = stages[j] {
            if let EnvStage::Inputs(InputStage::LatestPackages { system }) = stages[h] {
                lemma_system_packages_are_cached(
                    states[h].storage@,
                    given(replies[h]),
                    system@,
                    table,
                    id,
                );
            }
        }
    }
}

/// Whether objects are the packages of a table at their versions.
spec fn are_system_packages(table: Map<ObjectID, SequenceNumber>, objs: Seq<Object>) -> bool {
    &&& answers_exactly(listing(table), objs)
    &&& forall|k: int| 0 <= k < objs.len() ==> *(#[trigger] objs[k]).data is Package
}

/// How the packages of the system are handed on.
proof fn lemma_packages_step(
    before: &LocalExec,
    info: &OnChainTransactionInfo,
    at: EnvStage,
    reply: Option<EnvReply>,
    after: &LocalExec,
    r: Progress<EnvStage, InputsResult>,
)
    requires
        env_reply_fits(info, before.storage@, at, reply),
        env_step(before, info, at, reply, after, r),
        before.protocol_version_system_package_table@.contains_key(info.protocol_version),
    ensures
        r matches Progress::Ask(request, EnvStage::Inputs(InputStage::SystemPackages)) ==> (
        request matches Request::VersionedObjects(keys) && keys@ == listing(
            before.protocol_version_system_package_table@[info.protocol_version]@,
        )),
        r matches Progress::Ask(
            request,
            EnvStage::Inputs(InputStage::LatestPackages { system }),
        ) ==> request is LatestObjects && at == EnvStage::Inputs(InputStage::SystemPackages)
            && reply == Some(EnvReply::Objects(Ok(system))),
        r matches Progress::Continue(next) ==> {
            &&& next matches EnvStage::Inputs(InputStage::Resolve { .. })
            &&& at matches EnvStage::Inputs(InputStage::LatestPackages { system })
            &&& after.storage@ == before.storage@.with_all_cached(given(reply) + system@)
        },
        r matches Progress::Ask(_, EnvStage::Inputs(InputStage::Resolve { .. })) ==> *after
            == *before && (at matches EnvStage::Inputs(InputStage::Resolve { .. })),
        !(r matches Progress::Continue(EnvStage::Inputs(InputStage::SystemPackages))),
        !(r matches Progress::Continue(EnvStage::Inputs(InputStage::LatestPackages { .. }))),
{
}

proof fn lemma_system_packages_are_cached(
    before: StorageView,
    latest: Seq<Object>,
    system: Seq<Object>,
    table: Map<ObjectID, SequenceNumber>,
    id: ObjectID,
)
    requires
        is_listing(table, listing(table)),
        are_system_packages(table, system),
        table.contains_key(id),
    ensures
        ({
            let packages = before.with_all_cached(latest + system).packages;
            packages.contains_key(id) && packages[id].id == id && packages[id].version == table[id]
        }),
{
    let whole = listing(table);
    let all = latest + system;
    let k = choose|k: int| 0 <= k < whole.len() && (#[trigger] whole[k]).0 == id;
    let p = latest.len() + k;
    assert(system[k].id == whole[k].0);
    assert(all[p] == system[k]);
    assert(*system[k].data is Package);
    assert forall|j: int| p < j < all.len() && (#[trigger] all[j]).is_package() implies all[j].id
        != all[p].id by {
        let l = j - latest.len();
        assert(all[j] == system[l]);
        assert(system[l].id == whole[l].0);
        assert(whole[k].0.before(whole[l].0));
        whole[k].0.never_before_itself();
    }
    assert(is_last_package(all, p));
    law_stored_objects_are_found(before, all, p);
    law_caching_leaves_live_objects(before, all);
}

/// When a preparation is over and the node had everything, each package of the system among the
/// inputs is at the version that the table of the protocol version has for it.
pub proof fn law_system_packages_are_at_the_versions_of_the_table(
    info: &OnChainTransactionInfo,
    states: Seq<LocalExec>,
    stages: Seq<EnvStage>,
    replies: Seq<Option<EnvReply>>,
    results: Seq<Progress<EnvStage, InputsResult>>,
    inputs: Vec<ResolvedInput>,
    i: int,
    id: ObjectID,
)
    requires
        states.len() == results.len() + 1,
        forall|i: int|
            0 <= i < results.len() ==> {
                &&& env_reply_fits(info, states[i].storage@, stages[i], replies[i])
                &&& exists|session: &mut LocalExec|
                    *session == states[i] && *final(session) == states[i + 1]
                        && #[trigger] call_ensures(
                        LocalExec::initialize_execution_env_state,
                        (session, info, stages[i], replies[i]),
                        #[trigger] results[i],
                    )
            },
        is_preparation(stages, replies, results, inputs),
        gives_packages(replies, results),
        0 <= i < info.input_objects@.len(),
        info.input_objects@[i] == InputObjectKind::MovePackage(id),
        states[0].protocol_version_system_package_table@.contains_key(info.protocol_version),
        states[0].protocol_version_system_package_table@[info.protocol_version]@.contains_key(id),
    ensures
        inputs@.len() == info.input_objects@.len(),
        inputs@[i].1.id == id,
        inputs@[i].1.version
            == states[0].protocol_version_system_package_table@[info.protocol_version]@[id],
{
    let n = results.len() as int;
    let kinds = info.input_objects@;
    let table = states[0].protocol_version_system_package_table@[info.protocol_version]@;
    law_every_map_has_its_listing(table);
    assert forall|i: int| 0 <= i < n implies #[trigger] is_step(
        info,
        states,
        stages,
        replies,
        results,
        i,
    ) by {
        lemma_env_call(
            &states[i],
            info,
            stages[i],
            replies[i],
            &states[i + 1],
            results[i],
        );
    }
    let none = arbitrary();
    lemma_preparation_begins(info, states, stages, replies, results, inputs, none);
    let (c, b, a) = (n - 1, n - 2, n - 3);
    assert(is_step(info, states, stages, replies, results, c));
    lemma_search_goes_on(&states[c], info, stages[c], replies[c], &states[c + 1], results[c]);
    assert(leads_to(results[b], stages[b + 1]));
    assert(is_step(info, states, stages, replies, results, b));
    lemma_search_goes_on(&states[b], info, stages[b], replies[b], &states[b + 1], results[b]);
    lemma_env_step(&states[b], info, stages[b], replies[b], &states[b + 1], results[b]);
    assert(stages[b] == (EnvStage::ChildRefs { inputs }));
    assert(leads_to(results[a], stages[a + 1]));
    assert(is_full_answer(results[a - 1], replies[a]));
    assert(is_step(info, states, stages, replies, results, a));
    lemma_search_goes_on(&states[a], info, stages[a], replies[a], &states[a + 1], results[a]);
    lemma_system_found(info, states, stages, replies, results, inputs, table, id, a);
    lemma_resolve_reply(info, states, stages, replies, results, inputs, a);
}

/// While packages are searched for, the replies give objects.
proof fn lemma_resolve_reply(
    info: &OnChainTransactionInfo,
    states: Seq<LocalExec>,
    stages: Seq<EnvStage>,
    replies: Seq<Option<EnvReply>>,
    results: Seq<Progress<EnvStage, InputsResult>>,
    inputs: Vec<ResolvedInput>,
    a: int,
)
    requires
        states.len() == results.len() + 1,
        are_steps(info, states, stages, replies, results),
        is_preparation(stages, replies, results, inputs),
        0 < a < results.len(),
        stages[a] matches EnvStage::Inputs(InputStage::Resolve { .. }),
    ensures
        replies[a] is None || (replies[a] matches Some(EnvReply::Objects(Ok(_)))),
{
    let h = a - 1;
    assert(is_step(info, states, stages, replies, results, h));
    assert(leads_to(results[h], stages[h + 1]));
    assert(is_full_answer(results[h], replies[h + 1]));
    lemma_search_goes_on(&states[h], info, stages[h], replies[h], &states[a], results[h]);
}

/// The objects that a reply of the preparation holds are handed to the search for the inputs.
pub open spec fn is_handed_on(reply: Option<EnvReply>, objs: Option<ObjectsReply>) -> bool {
    match reply {
        None => objs is None,
        Some(EnvReply::Objects(given)) => objs == Some(given),
        Some(EnvReply::ChildRefs(_)) => false,
    }
}

/// Whether the preparation does what the search for the inputs does: it asks the same and goes
/// on in the same way, it fails with the same error, and with the resolved inputs it asks for
/// the child objects of the transaction.
pub open spec fn follows_search(
    info: &OnChainTransactionInfo,
    inner: Progress<InputStage, InputsResult>,
    r: Progress<EnvStage, InputsResult>,
) -> bool {
    match inner {
        Progress::Ask(Request::VersionedObjects(keys), stage) => {
            &&& r matches Progress::Ask(Request::VersionedObjects(asked), EnvStage::Inputs(at))
            &&& asked@ == keys@
            &&& at == stage
        },
        Progress::Ask(Request::LatestObjects(ids), InputStage::Resolve { latest }) => {
            &&& r matches Progress::Ask(
                Request::LatestObjects(asked),
                EnvStage::Inputs(InputStage::Resolve { latest: found }),
            )
            &&& asked@ == ids@
            &&& found@ == latest@
        },
        Progress::Ask(Request::LatestObjects(ids), stage) => {
            &&& r matches Progress::Ask(Request::LatestObjects(asked), EnvStage::Inputs(at))
            &&& asked@ == ids@
            &&& at == stage
        },
        Progress::Ask(_, _) => false,
        Progress::Continue(_) => {
            &&& r matches Progress::Continue(EnvStage::Inputs(InputStage::Resolve { latest }))
            &&& latest@.len() == 0
        },
        Progress::Done(Err(err)) => r == Progress::<EnvStage, _>::Done(
            Err::<Vec<ResolvedInput>, _>(err),
        ),
        Progress::Done(Ok(inputs)) => {
            &&& r matches Progress::Ask(
                Request::LoadedChildObjects(tx),
                EnvStage::ChildRefs { inputs: kept },
            )
            &&& tx == info.tx_digest
            &&& kept@ == inputs@
        },
    }
}

/// While the inputs are prepared, the preparation does what the search for the inputs does.
pub proof fn law_preparation_follows_the_search(
    before: &LocalExec,
    info: &OnChainTransactionInfo,
    stage: InputStage,
    reply: Option<EnvReply>,
    objs: Option<ObjectsReply>,
    searched: &LocalExec,
    inner: Progress<InputStage, InputsResult>,
    after: &LocalExec,
    r: Progress<EnvStage, InputsResult>,
)
    requires
        env_reply_fits(info, before.storage@, EnvStage::Inputs(stage), reply),
        is_handed_on(reply, objs),
        exists|session: &mut LocalExec|
            *session == *before && *final(session) == *searched && #[trigger] call_ensures(
                LocalExec::resolve_download_input_objects,
                (session, info, stage, objs),
                inner,
            ),
        exists|session: &mut LocalExec|
            *session == *before && *final(session) == *after && #[trigger] call_ensures(
                LocalExec::initialize_execution_env_state,
                (session, info, EnvStage::Inputs(stage), reply),
                r,
            ),
    ensures
        after.storage@ == searched.storage@,
        *after == (LocalExec { storage: after.storage, ..*before }),
        follows_search(info, inner, r),
{
    lemma_search_is_followed(before, info, stage, objs, searched, inner, after, r);
}

/// When the objects that pay for the gas have come they become live, and the search for the inputs
/// begins with them.
pub proof fn law_the_search_begins_behind_the_gas(
    before: &LocalExec,
    info: &OnChainTransactionInfo,
    objs: Vec<Object>,
    searched: &LocalExec,
    inner: Progress<InputStage, InputsResult>,
    after: &LocalExec,
    r: Progress<EnvStage, InputsResult>,
)
    requires
        exists|session: &mut LocalExec|
            *session == *before && *final(session) == *after && #[trigger] call_ensures(
                LocalExec::initialize_execution_env_state,
                (session, info, EnvStage::Gas, Some(EnvReply::Objects(Ok(objs)))),
                r,
            ),
        exists|session: &mut LocalExec|
            *session == *after && *final(session) == *searched && #[trigger] call_ensures(
                LocalExec::resolve_download_input_objects,
                (session, info, InputStage::Begin, None::<ObjectsReply>),
                inner,
            ),
    ensures
        follows_search(info, inner, r),
{
    lemma_search_is_followed(
        after,
        info,
        InputStage::Begin,
        None,
        searched,
        inner,
        after,
        r,
    );
}

proof fn lemma_search_is_followed(
    before: &LocalExec,
    info: &OnChainTransactionInfo,
    stage: InputStage,
    objs: Option<ObjectsReply>,
    searched: &LocalExec,
    inner: Progress<InputStage, InputsResult>,
    after: &LocalExec,
    r: Progress<EnvStage, InputsResult>,
)
    requires
        input_reply_fits(info, before.storage@, stage, objs),
        input_step(before, info, stage, objs, searched, inner),
        exists|other: Progress<InputStage, InputsResult>|
            {
                &&& #[trigger] input_step(before, info, stage, objs, after, other)
                &&& env_after_inputs(info, other, r)
            },
    ensures
        after.storage@ == searched.storage@,
        *after == (LocalExec { storage: after.storage, ..*before }),
        follows_search(info, inner, r),
{
    let other = choose|other: Progress<InputStage, InputsResult>|
        {
            &&& #[trigger] input_step(before, info, stage, objs, after, other)
            &&& env_after_inputs(info, other, r)
        };
    let inputs = info.input_objects@;
    if stage is Begin {
        if exists|i: int| #[trigger] is_first_missing(inputs, before.storage@, i) {
            let i = choose|i: int| #[trigger] is_first_missing(inputs, before.storage@, i);
            assert(is_first_missing(inputs, before.storage@, i));
            assert(inner == other);
        } else {
            assert(inner is Ask && other is Ask);
        }
    }
}

/// What the preparation is given is stored: the objects become live, each held at its version
/// and packages among the packages, and what none of them is stored under stays.
pub proof fn law_what_the_preparation_is_given_is_stored(
    before: &LocalExec,
    info: &OnChainTransactionInfo,
    at: EnvStage,
    objs: Vec<Object>,
    after: &LocalExec,
    r: Progress<EnvStage, InputsResult>,
    i: int,
    id: ObjectID,
    version: SequenceNumber,
)
    requires
        at is Modified || at is Shared || at is Gas || at is Children,
        exists|session: &mut LocalExec|
            *session == *before && *final(session) == *after && #[trigger] call_ensures(
                LocalExec::initialize_execution_env_state,
                (session, info, at, Some(EnvReply::Objects(Ok(objs)))),
                r,
            ),
    ensures
        *after == (LocalExec { storage: after.storage, ..*before }),
        ({
            let obj = objs@[i];
            let was = before.storage@;
            let is = after.storage@;
            &&& 0 <= i < objs@.len() && none_with_id(objs@, i + 1, obj.id)
                ==> is.live.contains_pair(obj.id, obj)
            &&& 0 <= i < objs@.len() && *obj.data is Package && no_package_with_id(
                objs@,
                i + 1,
                obj.id,
            ) ==> is.packages.contains_pair(obj.id, obj)
            &&& 0 <= i < objs@.len() && none_at_version(objs@, i + 1, obj.id, obj.version)
                ==> is.versions.contains_pair((obj.id, obj.version), obj)
            &&& none_with_id(objs@, 0, id) ==> is.live.get(id) == was.live.get(id)
            &&& no_package_with_id(objs@, 0, id) ==> is.packages.get(id) == was.packages.get(id)
            &&& none_at_version(objs@, 0, id, version) ==> is.versions.get((id, version))
                == was.versions.get((id, version))
        }),
{
    lemma_live_entries(before.storage@, objs@, i, id, version);
}

/// Whether two requests of the preparation ask the same.
pub open spec fn is_same_request(a: Request, b: Request) -> bool {
    match (a, b) {
        (Request::VersionedObjects(a), Request::VersionedObjects(b)) => a@ == b@,
        (Request::LatestObjects(a), Request::LatestObjects(b)) => a@ == b@,
        _ => a == b,
    }
}

/// Whether the preparation stands at the same point with the same contents.
pub open spec fn is_same_stage(a: EnvStage, b: EnvStage) -> bool {
    match (a, b) {
        (
            EnvStage::Inputs(InputStage::Resolve { latest: a }),
            EnvStage::Inputs(InputStage::Resolve { latest: b }),
        ) => a@ == b@,
        (EnvStage::ChildRefs { inputs: a }, EnvStage::ChildRefs { inputs: b }) => a@ == b@,
        (EnvStage::Children { inputs: a }, EnvStage::Children { inputs: b }) => a@ == b@,
        _ => a == b,
    }
}

/// Whether two steps of the preparation come to the same.
pub open spec fn is_same_preparation(
    a: Progress<EnvStage, InputsResult>,
    b: Progress<EnvStage, InputsResult>,
) -> bool {
    match (a, b) {
        (Progress::Ask(request, stage), Progress::Ask(other, other_stage)) => is_same_request(
            request,
            other,
        ) && is_same_stage(stage, other_stage),
        (Progress::Continue(stage), Progress::Continue(other)) => is_same_stage(stage, other),
        (Progress::Done(Ok(inputs)), Progress::Done(Ok(other))) => inputs@ == other@,
        (Progress::Done(Err(err)), Progress::Done(Err(other))) => err == other,
        _ => false,
    }
}

/// A step of the preparation comes to the same whenever it is made with the same answer on the same
/// session.
pub proof fn lemma_preparation_is_determined(
    before: &LocalExec,
    info: &OnChainTransactionInfo,
    at: EnvStage,
    reply: Option<EnvReply>,
    after: &LocalExec,
    r: Progress<EnvStage, InputsResult>,
    other_after: &LocalExec,
    other_r: Progress<EnvStage, InputsResult>,
)
    requires
        env_reply_fits(info, before.storage@, at, reply),
        env_step(before, info, at, reply, after, r),
        env_step(before, info, at, reply, other_after, other_r),
    ensures
        after.storage@ == other_after.storage@,
        *after == (LocalExec { storage: after.storage, ..*other_after }),
        is_same_preparation(r, other_r),
{
    match at {
        EnvStage::Gas => {
            if objects_of(reply)->0 is Ok {
                let inner = choose|inner: Progress<InputStage, InputsResult>|
                    {
                        &&& #[trigger] input_step(
                            after,
                            info,
                            InputStage::Begin,
                            None,
                            after,
                            inner,
                        )
                        &&& env_after_inputs(info, inner, r)
                    };
                let other = choose|other: Progress<InputStage, InputsResult>|
                    {
                        &&& #[trigger] input_step(
                            other_after,
                            info,
                            InputStage::Begin,
                            None,
                            other_after,
                            other,
                        )
                        &&& env_after_inputs(info, other, other_r)
                    };
                let inputs = info.input_objects@;
                if exists|i: int| #[trigger] is_first_missing(inputs, after.storage@, i) {
                    let i = choose|i: int| #[trigger] is_first_missing(inputs, after.storage@, i);
                    assert(is_first_missing(inputs, other_after.storage@, i));
                    assert(inner == other);
                } else {
                    assert(inner is Ask && other is Ask);
                }
            }
        },
        EnvStage::Inputs(stage) => {
            let inner = choose|inner: Progress<InputStage, InputsResult>|
                {
                    &&& #[trigger] input_step(
                        before,
                        info,
                        stage,
                        objects_of(reply),
                        after,
                        inner,
                    )
                    &&& env_after_inputs(info, inner, r)
                };
            lemma_search_is_followed(
                before,
                info,
                stage,
                objects_of(reply),
                after,
                inner,
                other_after,
                other_r,
            );
            if let Progress::Continue(EnvStage::Inputs(InputStage::Resolve { latest })) = r {
                if let Progress::Continue(EnvStage::Inputs(InputStage::Resolve { latest: found })) =
                    other_r {
                    assert(latest@ =~= found@);
                }
            }
        },
        _ => {},
    }
}

} // verus!
