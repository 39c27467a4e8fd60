//! Getting everything that a transaction reads before it is executed.
use crate::download::{answers_one, latest_object, ObjectsReply};
use crate::error::LocalExecError;
use crate::listing::{law_every_map_has_its_listing, listing, Key};
use crate::local_exec::LocalExec;
use crate::packages::{lemma_filters_agree, lemma_system_packages};
use crate::request::{Request, RequestView, Step};
use crate::storage::{
    law_caching_leaves_live_objects, lemma_live_entries, no_package_with_id, none_at_version,
    none_with_id, StorageView,
};
use crate::types::{
    InputObjectKind, Object, ObjectID, ObjectRef, OnChainTransactionInfo, SequenceNumber,
};
use vstd::pervasive::unreached;
use vstd::prelude::*;

verus! {

broadcast use {
    vstd::std_specs::btree::group_btree_axioms,
    vstd::laws_cmp::group_laws_cmp,
};

/// How far a longer piece of work came. `S` is where it stands.
#[derive(Debug, PartialEq)]
pub enum Progress<S, T> {
    /// Put the request and go on with the reply.
    Ask(Request, S),
    /// There is nothing to ask; go on.
    Continue(S),
    Done(T),
}

impl<S, T> Progress<S, T> {
    /// The request is put, and the work then goes on at a stage.
    pub open spec fn asks(&self, request: RequestView, stage: S) -> bool {
        self matches Progress::Ask(asked, at) && asked@ == request && at == stage
    }
}

/// An input of a transaction and the object that it stands for.
pub type ResolvedInput = (InputObjectKind, Object);

/// The identifiers of the packages among the inputs.
pub open spec fn package_inputs(inputs: Seq<InputObjectKind>) -> Seq<ObjectID>
    decreases inputs.len(),
{
    if inputs.len() == 0 {
        Seq::empty()
    } else {
        let before = package_inputs(inputs.drop_last());
        match inputs.last() {
            InputObjectKind::MovePackage(id) => before.push(id),
            _ => before,
        }
    }
}

/// The immutable and owned objects among the inputs, with their versions.
pub open spec fn owned_inputs(inputs: Seq<InputObjectKind>) -> Seq<(ObjectID, SequenceNumber)>
    decreases inputs.len(),
{
    if inputs.len() == 0 {
        Seq::empty()
    } else {
        let before = owned_inputs(inputs.drop_last());
        match inputs.last() {
            InputObjectKind::ImmOrOwnedMoveObject(o_ref) => before.push((o_ref.0, o_ref.1)),
            _ => before,
        }
    }
}

/// A shared input that is not among the live objects.
pub open spec fn is_missing_shared(input: InputObjectKind, storage: StorageView) -> bool {
    input matches InputObjectKind::SharedMoveObject { id, .. } && !storage.live.contains_key(id)
}

/// The identifier of an input.
pub open spec fn input_id(input: InputObjectKind) -> ObjectID {
    match input {
        InputObjectKind::MovePackage(id) => id,
        InputObjectKind::ImmOrOwnedMoveObject(o_ref) => o_ref.0,
        InputObjectKind::SharedMoveObject { id, .. } => id,
    }
}

/// Whether the first shared input that is not live stands at a place.
pub open spec fn is_first_missing(
    inputs: Seq<InputObjectKind>,
    storage: StorageView,
    i: int,
) -> bool {
    &&& 0 <= i < inputs.len()
    &&& is_missing_shared(inputs[i], storage)
    &&& forall|j: int| 0 <= j < i ==> !is_missing_shared(#[trigger] inputs[j], storage)
}

/// Whether an input other than a package is in the storage.
pub open spec fn is_at_hand(input: InputObjectKind, storage: StorageView) -> bool {
    match input {
        InputObjectKind::MovePackage(_) => true,
        InputObjectKind::ImmOrOwnedMoveObject(o_ref) => storage.versions.contains_key(
            (o_ref.0, o_ref.1),
        ),
        InputObjectKind::SharedMoveObject { id, .. } => storage.live.contains_key(id),
    }
}

/// Whether all inputs other than packages are in the storage.
pub open spec fn inputs_at_hand(inputs: Seq<InputObjectKind>, storage: StorageView) -> bool {
    forall|i: int| 0 <= i < inputs.len() ==> is_at_hand(#[trigger] inputs[i], storage)
}

/// The object that an input stands for. A package that is not in the storage is
/// the one that the node has.
pub open spec fn resolved_input(
    input: InputObjectKind,
    storage: StorageView,
    latest: Object,
) -> Object {
    match input {
        InputObjectKind::MovePackage(id) => if storage.packages.contains_key(id) {
            storage.packages[id]
        } else {
            latest
        },
        InputObjectKind::ImmOrOwnedMoveObject(o_ref) => storage.versions[(o_ref.0, o_ref.1)],
        InputObjectKind::SharedMoveObject { id, .. } => storage.live[id],
    }
}

/// The inputs of a transaction in their order, each with its object. `latest` holds
/// what the node has for each package among them.
pub open spec fn resolved_inputs(
    inputs: Seq<InputObjectKind>,
    storage: StorageView,
    latest: Seq<Object>,
) -> Seq<ResolvedInput> {
    Seq::new(
        inputs.len(),
        |i: int|
            (
                inputs[i],
                resolved_input(
                    inputs[i],
                    storage,
                    latest[package_inputs(inputs.take(i)).len() as int],
                ),
            ),
    )
}

/// Identifiers and versions of references.
pub open spec fn keys_of(refs: Seq<ObjectRef>) -> Seq<(ObjectID, SequenceNumber)> {
    refs.map_values(|r: ObjectRef| (r.0, r.1))
}

/// Identifiers and versions of references.
pub fn object_keys(refs: &Vec<ObjectRef>) -> (r: Vec<(ObjectID, SequenceNumber)>)
    ensures
        r@ == keys_of(refs@),
{
    let mut out: Vec<(ObjectID, SequenceNumber)> = Vec::new();
    let mut i: usize = 0;
    while i < refs.len()
        invariant
            i <= refs.len(),
            out@ == keys_of(refs@).take(i as int),
        decreases refs.len() - i,
    {
        out.push((refs[i].0, refs[i].1));
        i += 1;
        assert(keys_of(refs@).take(i as int) =~= keys_of(refs@).take(i - 1).push(
            keys_of(refs@)[i - 1],
        ));
    }
    assert(keys_of(refs@).take(i as int) =~= keys_of(refs@));
    out
}

/// Where the search for the inputs of a transaction stands.
#[derive(Debug, PartialEq)]
pub enum InputStage {
    /// Nothing has been asked yet.
    Begin,
    /// The immutable and owned objects have been asked for.
    Owned,
    /// The packages of the system have been asked for.
    SystemPackages,
    /// The other packages have been asked for. Here are those of the system.
    LatestPackages { system: Vec<Object> },
    /// Each package is asked for on its own. Here is what the node has for the first ones.
    Resolve { latest: Vec<Object> },
}

/// What the search for the inputs of a transaction is told next: nothing at first
/// and after `Progress::Continue`, else what the last download gave.
pub open spec fn input_reply_fits(
    info: &OnChainTransactionInfo,
    storage: StorageView,
    at: InputStage,
    reply: Option<ObjectsReply>,
) -> bool {
    match at {
        InputStage::Begin => reply is None,
        InputStage::Resolve { latest } => {
            let packages = package_inputs(info.input_objects@);
            &&& inputs_at_hand(info.input_objects@, storage)
            &&& match reply {
                None => latest@.len() == 0,
                Some(reply) => {
                    &&& latest@.len() < packages.len()
                    &&& answers_one(reply)
                    &&& latest_object(reply) matches Ok(Some(_))
                },
            }
        },
        _ => reply is Some,
    }
}

/// The result of a piece of work on the inputs of a transaction.
pub type InputsResult = Result<Vec<ResolvedInput>, LocalExecError>;

/// One step of the search for the inputs of a transaction.
pub open spec fn input_step(
    before: &LocalExec,
    info: &OnChainTransactionInfo,
    at: InputStage,
    reply: Option<ObjectsReply>,
    after: &LocalExec,
    r: Progress<InputStage, InputsResult>,
) -> bool {
    let inputs = info.input_objects@;
    let tables = before.protocol_version_system_package_table@;
    match at {
        InputStage::Begin => {
            &&& *after == *before
            &&& (forall|i: int| !(#[trigger] is_first_missing(inputs, before.storage@, i)))
                ==> r.asks(RequestView::VersionedObjects(owned_inputs(inputs)), InputStage::Owned)
            &&& forall|i: int| #[trigger]
                is_first_missing(inputs, before.storage@, i) ==> r == Progress::<
                    InputStage,
                    _,
                >::Done(
                    Err::<Vec<ResolvedInput>, _>(
                        LocalExecError::InternalCacheInvariantViolation {
                            id: input_id(inputs[i]),
                            version: None,
                        },
                    ),
                )
        },
        InputStage::Owned => match reply->0 {
            Err(err) => *after == *before && r == Progress::<InputStage, _>::Done(
                Err::<Vec<ResolvedInput>, _>(err),
            ),
            Ok(owned) => {
                &&& after.same_but_storage(before)
                &&& after.storage@ == before.storage@.with_all_live(owned@)
                &&& if tables.contains_key(info.protocol_version) {
                    r.asks(
                        RequestView::VersionedObjects(listing(tables[info.protocol_version]@)),
                        InputStage::SystemPackages,
                    )
                } else {
                    r == Progress::<InputStage, _>::Done(
                        Err::<Vec<ResolvedInput>, _>(
                            LocalExecError::FrameworkObjectVersionTableNotPopulated {
                                epoch: info.protocol_version,
                            },
                        ),
                    )
                }
            },
        },
        InputStage::SystemPackages => {
            &&& *after == *before
            &&& if !tables.contains_key(info.protocol_version) {
                r == Progress::<InputStage, _>::Done(
                    Err::<Vec<ResolvedInput>, _>(
                        LocalExecError::FrameworkObjectVersionTableNotPopulated {
                            epoch: info.protocol_version,
                        },
                    ),
                )
            } else {
                match reply->0 {
                    Err(err) => r == Progress::<InputStage, _>::Done(
                        Err::<Vec<ResolvedInput>, _>(err),
                    ),
                    Ok(system) => r.asks(
                        RequestView::LatestObjects(
                            before.non_system_packages(package_inputs(inputs)),
                        ),
                        InputStage::LatestPackages { system },
                    ),
                }
            }
        },
        InputStage::LatestPackages { system } => if !tables.contains_key(info.protocol_version) {
            *after == *before && r == Progress::<InputStage, _>::Done(
                Err::<Vec<ResolvedInput>, _>(
                    LocalExecError::FrameworkObjectVersionTableNotPopulated {
                        epoch: info.protocol_version,
                    },
                ),
            )
        } else {
            match reply->0 {
                Err(err) => *after == *before && r == Progress::<InputStage, _>::Done(
                    Err::<Vec<ResolvedInput>, _>(err),
                ),
                Ok(latest) => {
                    &&& after.same_but_storage(before)
                    &&& after.storage@ == before.storage@.with_all_cached(latest@ + system@)
                    &&& r matches Progress::Continue(InputStage::Resolve { latest: none })
                        && none@.len() == 0
                },
            }
        },
        InputStage::Resolve { latest } => {
            let packages = package_inputs(inputs);
            let found = match reply {
                None => latest@,
                Some(reply) => latest@.push(latest_object(reply)->Ok_0->0),
            };
            &&& *after == *before
            &&& if found.len() < packages.len() {
                &&& r matches Progress::Ask(request, InputStage::Resolve { latest: more })
                &&& request@ == RequestView::LatestObjects(seq![packages[found.len() as int]])
                &&& more@ == found
            } else {
                r matches Progress::Done(Ok(all)) && all@ == resolved_inputs(
                    inputs,
                    before.storage@,
                    found,
                )
            }
        },
    }
}

proof fn lemma_package_inputs_grow(inputs: Seq<InputObjectKind>, i: int)
    requires
        0 <= i <= inputs.len(),
    ensures
        package_inputs(inputs.take(i)).len() <= package_inputs(inputs).len(),
    decreases inputs.len(),
{
    if i < inputs.len() {
        assert(inputs.drop_last().take(i) =~= inputs.take(i));
        lemma_package_inputs_grow(inputs.drop_last(), i);
    } else {
        assert(inputs.take(i) =~= inputs);
    }
}

impl LocalExec {
    /// The first shared input that is not live.
    fn first_missing_shared(&self, inputs: &Vec<InputObjectKind>) -> (r: Option<ObjectID>)
        ensures
            match r {
                None => forall|i: int| !(#[trigger] is_first_missing(inputs@, self.storage@, i)),
                Some(id) => (exists|i: int| #[trigger] is_first_missing(inputs@, self.storage@, i))
                    && forall|i: int| #[trigger]
                    is_first_missing(inputs@, self.storage@, i) ==> id == input_id(inputs@[i]),
            },
    {
        let mut i: usize = 0;
        while i < inputs.len()
            invariant
                i <= inputs.len(),
                forall|j: int|
                    0 <= j < i ==> !is_missing_shared(#[trigger] inputs@[j], self.storage@),
            decreases inputs.len() - i,
        {
            match inputs[i] {
                InputObjectKind::SharedMoveObject { id, .. } => {
                    if self.storage.live_object(&id).is_none() {
                        assert(is_first_missing(inputs@, self.storage@, i as int));
                        return Some(id);
                    }
                },
                _ => {},
            }
            i += 1;
        }
        None
    }

    /// Whether all inputs of a transaction other than packages are in the storage.
    pub fn are_inputs_at_hand(&self, inputs: &Vec<InputObjectKind>) -> (r: bool)
        ensures
            r == inputs_at_hand(inputs@, self.storage@),
    {
        let mut i: usize = 0;
        while i < inputs.len()
            invariant
                i <= inputs.len(),
                forall|j: int| 0 <= j < i ==> is_at_hand(#[trigger] inputs@[j], self.storage@),
            decreases inputs.len() - i,
        {
            let found = match inputs[i] {
                InputObjectKind::MovePackage(_) => true,
                InputObjectKind::ImmOrOwnedMoveObject(o_ref) => self.storage.object_at(
                    &o_ref.0,
                    o_ref.1,
                ).is_some(),
                InputObjectKind::SharedMoveObject { id, .. } => self.storage.live_object(
                    &id,
                ).is_some(),
            };
            if !found {
                assert(!is_at_hand(inputs@[i as int], self.storage@));
                return false;
            }
            i += 1;
        }
        true
    }

    fn resolve_inputs(&self, inputs: &Vec<InputObjectKind>, latest: &Vec<Object>) -> (r: Vec<
        ResolvedInput,
    >)
        requires
            inputs_at_hand(inputs@, self.storage@),
            latest@.len() >= package_inputs(inputs@).len(),
        ensures
            r@ == resolved_inputs(inputs@, self.storage@, latest@),
    {
        let ghost whole = resolved_inputs(inputs@, self.storage@, latest@);
        let mut out: Vec<ResolvedInput> = Vec::new();
        let total: usize = latest.len();
        let mut next: usize = 0;
        let mut i: usize = 0;
        while i < inputs.len()
            invariant
                i <= inputs.len(),
                inputs_at_hand(inputs@, self.storage@),
                latest@.len() >= package_inputs(inputs@).len(),
                whole == resolved_inputs(inputs@, self.storage@, latest@),
                out@ == whole.take(i as int),
                next == package_inputs(inputs@.take(i as int)).len(),
                next <= total == latest@.len(),
            decreases inputs.len() - i,
        {
            let ghost place = next as int;
            proof {
                assert(is_at_hand(inputs@[i as int], self.storage@));
                assert(inputs@.take(i + 1).drop_last() =~= inputs@.take(i as int));
                lemma_package_inputs_grow(inputs@, i + 1);
            }
            let obj = match inputs[i] {
                InputObjectKind::MovePackage(id) => {
                    next += 1;
                    match self.storage.package(&id) {
                        Some(obj) => obj,
                        None => latest[next - 1].clone(),
                    }
                },
                InputObjectKind::ImmOrOwnedMoveObject(o_ref) => self.storage.object_at(
                    &o_ref.0,
                    o_ref.1,
                ).unwrap(),
                InputObjectKind::SharedMoveObject { id, .. } => self.storage.live_object(
                    &id,
                ).unwrap(),
            };
            assert(whole[i as int] == (
                inputs@[i as int],
                resolved_input(inputs@[i as int], self.storage@, latest@[place]),
            ));
            out.push((inputs[i], obj));
            assert(whole.take(i as int).push(whole[i as int]) =~= whole.take(i + 1));
            i += 1;
        }
        assert(whole.take(i as int) =~= whole);
        out
    }

    /// Finds the objects that the inputs of a transaction stand for. The shared ones
    /// are live by now, or the search fails. The immutable and owned ones are
    /// downloaded, then the packages: those of the system at the versions of the
    /// protocol version, the others at their latest versions. After that the node is
    /// asked for the latest version of each package once more, and its answer stands
    /// in for a package that is not in the storage.
    ///
    /// `at` is where the search stands and `reply` what the last download gave.
    pub fn resolve_download_input_objects(
        &mut self,
        tx_info: &OnChainTransactionInfo,
        at: InputStage,
        reply: Option<ObjectsReply>,
    ) -> (r: Progress<InputStage, InputsResult>)
        requires
            input_reply_fits(tx_info, old(self).storage@, at, reply),
        ensures
            input_step(old(self), tx_info, at, reply, final(self), r),
    {
        match at {
            InputStage::Begin => match self.first_missing_shared(&tx_info.input_objects) {
                None => Progress::Ask(
                    Request::VersionedObjects(owned_of(&tx_info.input_objects)),
                    InputStage::Owned,
                ),
                Some(id) => Progress::Done(
                    Err(LocalExecError::InternalCacheInvariantViolation { id, version: None }),
                ),
            },
            InputStage::Owned => {
                match self.store_downloaded(reply.unwrap()) {
                    Ok(_) => {},
                    Err(err) => {
                        return Progress::Done(Err(err));
                    },
                }
                let packages = packages_of(&tx_info.input_objects);
                match self.multi_download_relevant_packages_and_store(
                    &packages,
                    tx_info.protocol_version,
                    &None,
                    &None,
                ) {
                    Step::Ask(request) => Progress::Ask(request, InputStage::SystemPackages),
                    Step::Done(Err(err)) => Progress::Done(Err(err)),
                    Step::Done(Ok(_)) => unreached(),
                }
            },
            InputStage::SystemPackages => {
                let packages = packages_of(&tx_info.input_objects);
                match self.multi_download_relevant_packages_and_store(
                    &packages,
                    tx_info.protocol_version,
                    &reply,
                    &None,
                ) {
                    Step::Ask(request) => Progress::Ask(
                        request,
                        InputStage::LatestPackages { system: reply.unwrap().unwrap() },
                    ),
                    Step::Done(Err(err)) => Progress::Done(Err(err)),
                    Step::Done(Ok(_)) => unreached(),
                }
            },
            InputStage::LatestPackages { system } => {
                let packages = packages_of(&tx_info.input_objects);
                match self.multi_download_relevant_packages_and_store(
                    &packages,
                    tx_info.protocol_version,
                    &Some(Ok(system)),
                    &reply,
                ) {
                    Step::Done(Ok(_)) => Progress::Continue(
                        InputStage::Resolve { latest: Vec::new() },
                    ),
                    Step::Done(Err(err)) => Progress::Done(Err(err)),
                    Step::Ask(_) => unreached(),
                }
            },
            InputStage::Resolve { latest } => {
                let mut found = latest;
                let packages = packages_of(&tx_info.input_objects);
                match reply {
                    Some(reply) => {
                        match self.download_latest_object(&packages[found.len()], Some(reply)) {
                            Step::Done(Ok(Some(obj))) => {
                                found.push(obj);
                            },
                            _ => {
                                return unreached();
                            },
                        }
                    },
                    None => {},
                }
                if found.len() < packages.len() {
                    match self.download_latest_object(&packages[found.len()], None) {
                        Step::Ask(request) => Progress::Ask(
                            request,
                            InputStage::Resolve { latest: found },
                        ),
                        Step::Done(_) => unreached(),
                    }
                } else {
                    Progress::Done(Ok(self.resolve_inputs(&tx_info.input_objects, &found)))
                }
            },
        }
    }
}

/// The immutable and owned objects among the inputs, with their versions.
fn owned_of(inputs: &Vec<InputObjectKind>) -> (r: Vec<(ObjectID, SequenceNumber)>)
    ensures
        r@ == owned_inputs(inputs@),
{
    let mut owned: Vec<(ObjectID, SequenceNumber)> = Vec::new();
    let mut i: usize = 0;
    while i < inputs.len()
        invariant
            i <= inputs.len(),
            owned@ == owned_inputs(inputs@.take(i as int)),
        decreases inputs.len() - i,
    {
        assert(inputs@.take(i + 1).drop_last() =~= inputs@.take(i as int));
        match inputs[i] {
            InputObjectKind::ImmOrOwnedMoveObject(o_ref) => {
                owned.push((o_ref.0, o_ref.1));
            },
            _ => {},
        }
        i += 1;
    }
    assert(inputs@.take(i as int) =~= inputs@);
    owned
}

/// The identifiers of the packages among the inputs.
fn packages_of(inputs: &Vec<InputObjectKind>) -> (r: Vec<ObjectID>)
    ensures
        r@ == package_inputs(inputs@),
{
    let mut packages: Vec<ObjectID> = Vec::new();
    let mut i: usize = 0;
    while i < inputs.len()
        invariant
            i <= inputs.len(),
            packages@ == package_inputs(inputs@.take(i as int)),
        decreases inputs.len() - i,
    {
        assert(inputs@.take(i + 1).drop_last() =~= inputs@.take(i as int));
        match inputs[i] {
            InputObjectKind::MovePackage(id) => {
                packages.push(id);
            },
            _ => {},
        }
        i += 1;
    }
    assert(inputs@.take(i as int) =~= inputs@);
    packages
}

/// The immutable and owned inputs are those inputs that are such, in their order, each by
/// identifier and version, and the packages those that are packages.
pub proof fn lemma_inputs_by_kind(inputs: Seq<InputObjectKind>)
    ensures
        owned_inputs(inputs) == inputs.filter(
            |kind: InputObjectKind| kind is ImmOrOwnedMoveObject,
        ).map_values(
            |kind: InputObjectKind|
                (kind->ImmOrOwnedMoveObject_0.0, kind->ImmOrOwnedMoveObject_0.1),
        ),
        package_inputs(inputs) == inputs.filter(
            |kind: InputObjectKind| kind is MovePackage,
        ).map_values(|kind: InputObjectKind| kind->MovePackage_0),
    decreases inputs.len(),
{
    reveal(Seq::filter);
    let owned = inputs.filter(|kind: InputObjectKind| kind is ImmOrOwnedMoveObject).map_values(
        |kind: InputObjectKind|
            (kind->ImmOrOwnedMoveObject_0.0, kind->ImmOrOwnedMoveObject_0.1),
    );
    let packages = inputs.filter(|kind: InputObjectKind| kind is MovePackage).map_values(
        |kind: InputObjectKind| kind->MovePackage_0,
    );
    if inputs.len() > 0 {
        lemma_inputs_by_kind(inputs.drop_last());
    }
    assert(owned_inputs(inputs) =~= owned);
    assert(package_inputs(inputs) =~= packages);
}

/// A package stands among the packages at the place that so many packages stand before.
pub proof fn lemma_package_place(inputs: Seq<InputObjectKind>, i: int)
    requires
        0 <= i < inputs.len(),
        inputs[i] is MovePackage,
    ensures
        package_inputs(inputs.take(i)).len() < package_inputs(inputs).len(),
        package_inputs(inputs)[package_inputs(inputs.take(i)).len() as int]
            == inputs[i]->MovePackage_0,
    decreases inputs.len(),
{
    let shorter = inputs.drop_last();
    if i < shorter.len() {
        lemma_package_place(shorter, i);
        assert(shorter.take(i) =~= inputs.take(i));
    } else {
        assert(inputs.take(i) =~= shorter);
    }
}

/// The inputs of a transaction are searched for in this order. If a shared one is not live, the
/// first such is the error. Else the immutable and owned ones are asked for at their versions,
/// then the packages of the system at the versions of the protocol version, then the other
/// packages at their latest versions. What the node cannot answer ends the search.
pub proof fn law_inputs_are_asked_for_in_order(
    before: &LocalExec,
    info: &OnChainTransactionInfo,
    at: InputStage,
    reply: Option<ObjectsReply>,
    after: &LocalExec,
    r: Progress<InputStage, InputsResult>,
    i: int,
    id: ObjectID,
)
    requires
        input_reply_fits(info, before.storage@, at, reply),
        exists|session: &mut LocalExec|
            *session == *before && *final(session) == *after && #[trigger] call_ensures(
                LocalExec::resolve_download_input_objects,
                (session, info, at, reply),
                r,
            ),
    ensures
        *after == (LocalExec { storage: after.storage, ..*before }),
        reply matches Some(Err(err)) && !(at is Resolve)
            && before.protocol_version_system_package_table@.contains_key(
            info.protocol_version,
        ) ==> *after == *before && r == Progress::<InputStage, _>::Done(
            Err::<Vec<ResolvedInput>, _>(reply->0->Err_0),
        ),
        at is Begin ==> {
            let shared_missing = |k: int|
                0 <= k < info.input_objects@.len() && (
                info.input_objects@[k] matches InputObjectKind::SharedMoveObject { id, .. }
                    && !before.storage@.live.contains_key(id));
            &&& *after == *before
            &&& (forall|k: int| !(#[trigger] shared_missing(k))) ==> {
                &&& r matches Progress::Ask(Request::VersionedObjects(keys), InputStage::Owned)
                &&& keys@ == info.input_objects@.filter(
                    |kind: InputObjectKind| kind is ImmOrOwnedMoveObject,
                ).map_values(
                    |kind: InputObjectKind|
                        (kind->ImmOrOwnedMoveObject_0.0, kind->ImmOrOwnedMoveObject_0.1),
                )
            }
            &&& shared_missing(i) && (forall|k: int| k < i ==> !(#[trigger] shared_missing(k)))
                ==> r == Progress::<InputStage, _>::Done(
                Err::<Vec<ResolvedInput>, _>(
                    LocalExecError::InternalCacheInvariantViolation {
                        id: info.input_objects@[i]->id,
                        version: None,
                    },
                ),
            )
        },
        !(at is Begin) && !(at is Resolve)
            && !before.protocol_version_system_package_table@.contains_key(info.protocol_version)
            && !(reply->0 is Err && at is Owned) ==> r == Progress::<InputStage, _>::Done(
            Err::<Vec<ResolvedInput>, _>(
                LocalExecError::FrameworkObjectVersionTableNotPopulated {
                    epoch: info.protocol_version,
                },
            ),
        ),
        at is Owned && reply->0 is Ok && before.protocol_version_system_package_table@.contains_key(
            info.protocol_version,
        ) ==> {
            let table = before.protocol_version_system_package_table@[info.protocol_version]@;
            &&& r matches Progress::Ask(
                Request::VersionedObjects(keys),
                InputStage::SystemPackages,
            )
            &&& table.contains_key(id) ==> keys@.contains((id, table[id]))
            &&& forall|k: int|
                0 <= k < keys@.len() ==> table.contains_pair(
                    (#[trigger] keys@[k]).0,
                    keys@[k].1,
                )
            &&& forall|k: int, l: int|
                0 <= k < l < keys@.len() ==> (#[trigger] keys@[k]).0 != (#[trigger] keys@[l]).0
        },
        at is SystemPackages && before.protocol_version_system_package_table@.contains_key(
            info.protocol_version,
        ) ==> (reply->0 matches Ok(system) ==> {
            let version = before.current_protocol_version;
            &&& *after == *before
            &&& r matches Progress::Ask(
                Request::LatestObjects(ids),
                InputStage::LatestPackages { system: kept },
            )
            &&& kept == system
            &&& ids@ == info.input_objects@.filter(
                |kind: InputObjectKind| kind is MovePackage,
            ).map_values(|kind: InputObjectKind| kind->MovePackage_0).filter(
                |package: ObjectID|
                    !(before.params.builtin_package_ids@.contains(package) && (version >= 5
                        || package != before.params.deepbook_package_id)),
            )
        }),
{
    let inputs = info.input_objects@;
    lemma_inputs_by_kind(inputs);
    match at {
        InputStage::Begin => {
            let shared_missing = |k: int|
                0 <= k < inputs.len() && (
                inputs[k] matches InputObjectKind::SharedMoveObject { id, .. }
                    && !before.storage@.live.contains_key(id));
            assert(forall|k: int|
                0 <= k < inputs.len() ==> (is_missing_shared(
                    #[trigger] inputs[k],
                    before.storage@,
                ) <==> shared_missing(k)));
            if forall|k: int| !(#[trigger] shared_missing(k)) {
                assert forall|k: int| !(#[trigger] is_first_missing(
                    inputs,
                    before.storage@,
                    k,
                )) by {
                    assert(!shared_missing(k));
                }
            }
            if shared_missing(i) && (forall|k: int| k < i ==> !(#[trigger] shared_missing(k))) {
                assert forall|k: int| 0 <= k < i implies !is_missing_shared(
                    #[trigger] inputs[k],
                    before.storage@,
                ) by {
                    assert(!shared_missing(k));
                }
                assert(is_first_missing(inputs, before.storage@, i));
            }
        },
        InputStage::Owned => {
            if before.protocol_version_system_package_table@.contains_key(info.protocol_version) {
                let table = before.protocol_version_system_package_table@[info.protocol_version]@;
                law_every_map_has_its_listing(table);
                let whole = listing(table);
                if table.contains_key(id) {
                    let k = choose|k: int| 0 <= k < whole.len() && (#[trigger] whole[k]).0 == id;
                    assert(whole[k] == (id, table[id]));
                }
                assert forall|k: int, l: int| 0 <= k < l < whole.len() implies (
                #[trigger] whole[k]).0 != (#[trigger] whole[l]).0 by {
                    assert(whole[k].0.before(whole[l].0));
                    whole[k].0.never_before_itself();
                }
            }
        },
        InputStage::SystemPackages => {
            let version = before.current_protocol_version;
            let ids = package_inputs(inputs);
            let builtin = before.params.builtin_package_ids@;
            lemma_system_packages(before, version);
            assert forall|package: ObjectID|
                #[trigger] before.system_packages(version).contains(package) == (builtin.contains(
                    package,
                ) && (version >= 5 || package != before.params.deepbook_package_id)) by {
                lemma_filter_contains_it(
                    builtin,
                    |id: ObjectID| version >= 5 || id != before.params.deepbook_package_id,
                    package,
                );
            }
            lemma_filters_agree(
                ids,
                |id: ObjectID| !before.system_packages(version).contains(id),
                |package: ObjectID|
                    !(builtin.contains(package) && (version >= 5 || package
                        != before.params.deepbook_package_id)),
            );
        },
        _ => {},
    }
}

pub proof fn lemma_filter_contains_it<T>(all: Seq<T>, keep: spec_fn(T) -> bool, t: T)
    ensures
        all.filter(keep).contains(t) <==> all.contains(t) && keep(t),
    decreases all.len(),
{
    reveal(Seq::filter);
    if all.len() > 0 {
        let shorter = all.drop_last();
        lemma_filter_contains_it(shorter, keep, t);
        let kept = shorter.filter(keep);
        if shorter.contains(t) {
            assert(all[shorter.index_of(t)] == t);
        }
        if all.contains(t) {
            let k = all.index_of(t);
            if k < shorter.len() {
                assert(shorter[k] == t);
            }
        }
        assert(all[all.len() - 1] == all.last());
        if keep(all.last()) {
            let whole = kept.push(all.last());
            assert(whole[kept.len() as int] == all.last());
            if kept.contains(t) {
                assert(whole[kept.index_of(t)] == t);
            }
            if whole.contains(t) && t != all.last() {
                let k = whole.index_of(t);
                assert(kept[k] == t);
            }
        }
    }
}

/// The inputs of a transaction are at hand just if each that is immutable or owned is held at the
/// version that is named, and each that is shared is live.
pub proof fn law_inputs_at_hand_are_told(exec: &LocalExec, inputs: &Vec<InputObjectKind>, r: bool)
    requires
        call_ensures(LocalExec::are_inputs_at_hand, (exec, inputs), r),
    ensures
        r <==> forall|i: int|
            0 <= i < inputs@.len() ==> match #[trigger] inputs@[i] {
                InputObjectKind::MovePackage(_) => true,
                InputObjectKind::ImmOrOwnedMoveObject((id, version, _)) =>
                    exec.storage@.versions.contains_key((id, version)),
                InputObjectKind::SharedMoveObject { id, .. } => exec.storage@.live.contains_key(id),
            },
{
}

/// References are cut down to identifiers and versions, one for one.
pub proof fn law_keys_are_those_of_the_references(
    refs: &Vec<ObjectRef>,
    r: Vec<(ObjectID, SequenceNumber)>,
    i: int,
)
    requires
        call_ensures(object_keys, (refs,), r),
    ensures
        r@.len() == refs@.len(),
        0 <= i < refs@.len() ==> r@[i].0 == refs@[i].0 && r@[i].1 == refs@[i].1,
{
}

/// What the search for the inputs is given is stored. The immutable and owned objects become
/// live. The packages are cached, first the latest ones and then those of the system, and
/// nothing becomes live with them; the search then goes on with no package looked up yet.
pub proof fn law_what_the_search_is_given_is_stored(
    before: &LocalExec,
    info: &OnChainTransactionInfo,
    at: InputStage,
    objs: Vec<Object>,
    after: &LocalExec,
    r: Progress<InputStage, InputsResult>,
    i: int,
    id: ObjectID,
    version: SequenceNumber,
)
    requires
        at is Owned || at is LatestPackages,
        before.protocol_version_system_package_table@.contains_key(info.protocol_version),
        exists|session: &mut LocalExec|
            *session == *before && *final(session) == *after && #[trigger] call_ensures(
                LocalExec::resolve_download_input_objects,
                (session, info, at, Some(Ok(objs))),
                r,
            ),
    ensures
        ({
            let all = match at {
                InputStage::LatestPackages { system } => objs@ + system@,
                _ => objs@,
            };
            let obj = all[i];
            let was = before.storage@;
            let is = after.storage@;
            &&& at is LatestPackages ==> is.live == was.live && (r matches Progress::Continue(
                InputStage::Resolve { latest },
            ) && latest@.len() == 0)
            &&& at is Owned && 0 <= i < all.len() && none_with_id(all, i + 1, obj.id)
                ==> is.live.contains_pair(obj.id, obj)
            &&& 0 <= i < all.len() && *obj.data is Package && no_package_with_id(
                all,
                i + 1,
                obj.id,
            ) ==> is.packages.contains_pair(obj.id, obj)
            &&& 0 <= i < all.len() && none_at_version(all, i + 1, obj.id, obj.version)
                ==> is.versions.contains_pair((obj.id, obj.version), obj)
            &&& none_with_id(all, 0, id) ==> is.live.get(id) == was.live.get(id)
            &&& no_package_with_id(all, 0, id) ==> is.packages.get(id) == was.packages.get(id)
            &&& none_at_version(all, 0, id, version) ==> is.versions.get((id, version))
                == was.versions.get((id, version))
        }),
{
    let all = match at {
        InputStage::LatestPackages { system } => objs@ + system@,
        _ => objs@,
    };
    lemma_live_entries(before.storage@, all, i, id, version);
    law_caching_leaves_live_objects(before.storage@, all);
}

/// The packages among the inputs are looked up one after the other, each at its latest version,
/// and the answers are collected in their order. When all have been looked up the result is the
/// inputs in their order, each with its object. An immutable or owned one has the object that is
/// held at the version that it names, a shared one has the live object, and a package has the
/// one that is stored or, if none is, the one that was looked up for it. The session stays as it
/// is.
pub proof fn law_each_input_gets_its_object(
    before: &LocalExec,
    info: &OnChainTransactionInfo,
    latest: Vec<Object>,
    reply: Option<ObjectsReply>,
    found: Seq<Object>,
    after: &LocalExec,
    r: Progress<InputStage, InputsResult>,
    i: int,
)
    requires
        input_reply_fits(info, before.storage@, InputStage::Resolve { latest }, reply),
        match reply {
            Some(Ok(objs)) => found == latest@.push(objs@[objs@.len() - 1]),
            _ => found == latest@,
        },
        exists|session: &mut LocalExec|
            *session == *before && *final(session) == *after && #[trigger] call_ensures(
                LocalExec::resolve_download_input_objects,
                (session, info, InputStage::Resolve { latest }, reply),
                r,
            ),
    ensures
        *after == *before,
        ({
            let packages = info.input_objects@.filter(
                |kind: InputObjectKind| kind is MovePackage,
            ).map_values(|kind: InputObjectKind| kind->MovePackage_0);
            if found.len() < packages.len() {
                &&& r matches Progress::Ask(
                    Request::LatestObjects(ids),
                    InputStage::Resolve { latest: more },
                )
                &&& ids@ == seq![packages[found.len() as int]]
                &&& more@ == found
            } else {
                &&& r matches Progress::Done(Ok(all))
                &&& all@.len() == info.input_objects@.len()
                &&& 0 <= i < all@.len() ==> all@[i].0 == info.input_objects@[i]
                    && match info.input_objects@[i] {
                    InputObjectKind::MovePackage(id) => if before.storage@.packages.contains_key(
                        id,
                    ) {
                        all@[i].1 == before.storage@.packages[id]
                    } else {
                        let place = info.input_objects@.take(i).filter(
                            |kind: InputObjectKind| kind is MovePackage,
                        ).len() as int;
                        packages[place] == id && all@[i].1 == found[place]
                    },
                    InputObjectKind::ImmOrOwnedMoveObject((id, version, _)) => {
                        &&& before.storage@.versions.contains_key((id, version))
                        &&& all@[i].1 == before.storage@.versions[(id, version)]
                    },
                    InputObjectKind::SharedMoveObject { id, .. } => {
                        &&& before.storage@.live.contains_key(id)
                        &&& all@[i].1 == before.storage@.live[id]
                    },
                }
            }
        }),
{
    let inputs = info.input_objects@;
    lemma_inputs_by_kind(inputs);
    if 0 <= i < inputs.len() {
        lemma_inputs_by_kind(inputs.take(i));
        assert(is_at_hand(inputs[i], before.storage@));
        if inputs[i] is MovePackage {
            lemma_package_place(inputs, i);
        }
    }
}

} // verus!
