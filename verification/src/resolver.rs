//! Reading objects on behalf of the execution engine, and keeping track of what was read.
use crate::download::{answers_one, latest_object, ObjectsReply};
use crate::error::{ErrorText, LocalExecError, SuiError};
use crate::local_exec::LocalExec;
use crate::request::{Request, RequestView, Step};
use crate::storage::StorageView;
use crate::types::{
    have_same_texts, Data, Object, ObjectID, ObjectRef, Owner, SequenceNumber, StructTag,
    SuiAddress,
};
use std::sync::Arc;
use vstd::pervasive::unreached;
use vstd::prelude::*;

verus! {

/// A module of a package, by name.
#[derive(Debug, PartialEq, Eq)]
pub struct ModuleId {
    pub address: ObjectID,
    pub name: String,
}

/// The bytes of a module or of a value.
pub type Bytes = Arc<Vec<u8>>;

/// One reading access of the execution engine and what came of it.
#[derive(Debug, PartialEq)]
#[allow(inconsistent_fields)]
pub enum ExecutionStoreEvent {
    BackingPackageGetPackageObject {
        package_id: ObjectID,
        result: Result<Option<Object>, SuiError>,
    },
    ChildObjectResolverStoreReadChildObject {
        parent: ObjectID,
        child: ObjectID,
        result: Result<Option<Object>, SuiError>,
    },
    ParentSyncStoreGetLatestParentEntryRef {
        object_id: ObjectID,
        result: Result<Option<ObjectRef>, SuiError>,
    },
    ResourceResolverGetResource {
        address: ObjectID,
        typ: Arc<StructTag>,
        result: Result<Option<Bytes>, LocalExecError>,
    },
    ModuleResolverGetModule {
        module_id: Arc<ModuleId>,
        result: Result<Option<Bytes>, LocalExecError>,
    },
    ObjectStoreGetObject { object_id: ObjectID, result: Result<Option<Object>, SuiError> },
    ObjectStoreGetObjectByKey {
        object_id: ObjectID,
        version: SequenceNumber,
        result: Result<Option<Object>, SuiError>,
    },
    GetModuleGetModuleByModuleId {
        id: Arc<ModuleId>,
        result: Result<Option<Bytes>, LocalExecError>,
    },
}

/// What comes of looking for an object.
pub type Found = Result<Option<Object>, SuiError>;

fn copy_found(found: &Found) -> (r: Found)
    ensures
        r == *found,
{
    match found {
        Ok(Some(obj)) => Ok(Some(obj.clone())),
        Ok(None) => Ok(None),
        Err(err) => Err(err.clone()),
    }
}

fn copy_bytes_found(found: &Result<Option<Bytes>, LocalExecError>) -> (r: Result<
    Option<Bytes>,
    LocalExecError,
>)
    ensures
        r == *found,
{
    match found {
        Ok(Some(bytes)) => Ok(Some(bytes.clone())),
        Ok(None) => Ok(None),
        Err(err) => Err(err.clone()),
    }
}

/// What a package is found to be, from what looking for it or downloading it gave.
pub open spec fn package_found(found: Result<Option<Object>, LocalExecError>) -> Found {
    match found {
        Ok(obj) => Ok(obj),
        Err(err) => Err(SuiError::GenericStorageError(ErrorText::Of(Arc::new(err)))),
    }
}

/// What a child object is found to be: only its parent may look at it.
pub open spec fn child_found(
    live: Map<ObjectID, Object>,
    parent: ObjectID,
    child: ObjectID,
) -> Found {
    if !live.contains_key(child) {
        Ok(None)
    } else if live[child].owner == Owner::ObjectOwner(SuiAddress::of_object(parent)) {
        Ok(Some(live[child]))
    } else {
        Err(
            SuiError::InvalidChildObjectAccess {
                object: child,
                given_parent: parent,
                actual_owner: live[child].owner,
            },
        )
    }
}

/// What a live object is found to be, if only one version of it will do.
pub open spec fn found_at_version(
    live: Map<ObjectID, Object>,
    id: ObjectID,
    version: SequenceNumber,
) -> Option<Object> {
    if live.contains_key(id) && live[id].version == version {
        Some(live[id])
    } else {
        None
    }
}

/// Whether an object is a Move value of a type.
pub open spec fn has_type(obj: Object, typ: StructTag) -> bool {
    *obj.data matches Data::Move { type_, .. } && type_@ == typ@
}

/// Whether an object is a Move value of a type.
fn is_value_of(obj: &Object, typ: &StructTag) -> (r: bool)
    ensures
        r == has_type(*obj, *typ),
{
    match &*obj.data {
        Data::Move { type_, .. } => type_.same_as(typ),
        Data::Package { .. } => false,
    }
}

/// The contents of a Move value.
pub open spec fn contents_of(obj: Object) -> Bytes {
    match *obj.data {
        Data::Move { contents, .. } => contents,
        Data::Package { .. } => arbitrary(),
    }
}

/// What a value is found to be, from what looking for its object or downloading it gave.
pub open spec fn resource_found(found: Result<Option<Object>, LocalExecError>) -> Result<
    Option<Bytes>,
    LocalExecError,
> {
    match found {
        Ok(Some(obj)) => Ok(Some(contents_of(obj))),
        Ok(None) => Ok(None),
        Err(err) => Err(err),
    }
}

/// The first module with a name.
pub open spec fn module_named(modules: Seq<(String, Bytes)>, name: Seq<char>) -> Option<Bytes>
    decreases modules.len(),
{
    if modules.len() == 0 {
        None
    } else if modules[0].0@ == name {
        Some(modules[0].1)
    } else {
        module_named(modules.skip(1), name)
    }
}

/// The first module with a name.
pub fn find_module(modules: &Vec<(String, Bytes)>, name: &String) -> (r: Option<Bytes>)
    ensures
        r == module_named(modules@, name@),
{
    let mut i: usize = 0;
    assert(modules@.skip(0) =~= modules@);
    while i < modules.len()
        invariant
            i <= modules.len(),
            module_named(modules@, name@) == module_named(modules@.skip(i as int), name@),
        decreases modules.len() - i,
    {
        assert(modules@.skip(i as int).skip(1) =~= modules@.skip(i + 1));
        if modules[i].0 == *name {
            return Some(modules[i].1.clone());
        }
        i += 1;
    }
    None
}

/// The module with a name in an object, which must be a package.
pub open spec fn module_in(obj: Option<Object>, name: Seq<char>) -> Option<Bytes> {
    match obj {
        Some(obj) => match *obj.data {
            Data::Package { modules } => module_named(modules@, name),
            Data::Move { .. } => None,
        },
        None => None,
    }
}

/// The module with a name in an object, which must be a package.
fn find_module_in(obj: &Option<Object>, name: &String) -> (r: Option<Bytes>)
    ensures
        r == module_in(*obj, name@),
{
    match obj {
        Some(obj) => match &*obj.data {
            Data::Package { modules } => find_module(modules, name),
            Data::Move { .. } => None,
        },
        None => None,
    }
}

/// What a module is found to be, from what looking for its package gave.
pub open spec fn module_found(package: Found, name: Seq<char>) -> Result<
    Option<Bytes>,
    LocalExecError,
> {
    match package {
        Ok(obj) => Ok(module_in(obj, name)),
        Err(err) => Err(LocalExecError::SuiError { err }),
    }
}

impl LocalExec {
    /// What looking for an object gives once a download that may be needed is over.
    pub open spec fn found(
        &self,
        id: ObjectID,
        package_expected: bool,
        reply: Option<ObjectsReply>,
    ) -> Option<Result<Option<Object>, LocalExecError>> {
        match self.at_hand(id, package_expected) {
            Some(obj) => Some(Ok(Some(obj))),
            None => match reply {
                Some(reply) => Some(latest_object(reply)),
                None => None,
            },
        }
    }

    /// The storage after looking for an object: a download has been kept.
    pub open spec fn storage_after_looking(
        &self,
        id: ObjectID,
        package_expected: bool,
        reply: Option<ObjectsReply>,
    ) -> StorageView {
        match (self.at_hand(id, package_expected), self.found(id, package_expected, reply)) {
            (None, Some(Ok(Some(obj)))) => self.storage@.with_downloaded(id, obj),
            _ => self.storage@,
        }
    }

    /// Nothing but the storage and the list of what was read changed.
    pub open spec fn same_but_reading(&self, old: &LocalExec) -> bool {
        *self == LocalExec {
            storage: self.storage,
            exec_store_events: self.exec_store_events,
            ..*old
        }
    }

    /// A package. One that is not at hand is downloaded. `reply` is what the download gave,
    /// once it is over.
    pub fn get_package_object(&mut self, package_id: &ObjectID, reply: Option<ObjectsReply>) -> (r:
        Step<Found>)
        requires
            old(self).at_hand(*package_id, true) is None && reply is Some ==> answers_one(reply->0),
        ensures
            match old(self).found(*package_id, true, reply) {
                None => r.asks(RequestView::LatestObjects(seq![*package_id])) && *final(self)
                    == *old(self),
                Some(found) => {
                    &&& r == Step::Done(package_found(found))
                    &&& final(self).same_but_reading(old(self))
                    &&& final(self).storage@ == old(self).storage_after_looking(
                        *package_id,
                        true,
                        reply,
                    )
                    &&& final(self).exec_store_events@ == old(self).exec_store_events@.push(
                        ExecutionStoreEvent::BackingPackageGetPackageObject {
                            package_id: *package_id,
                            result: package_found(found),
                        },
                    )
                },
            },
    {
        let res = match self.get_or_download_object(package_id, true, reply) {
            Step::Ask(request) => {
                return Step::Ask(request);
            },
            Step::Done(Ok(obj)) => Ok(obj),
            Step::Done(Err(err)) => Err(
                SuiError::GenericStorageError(ErrorText::Of(Arc::new(err))),
            ),
        };
        self.exec_store_events.push(
            ExecutionStoreEvent::BackingPackageGetPackageObject {
                package_id: *package_id,
                result: copy_found(&res),
            },
        );
        Step::Done(res)
    }

    /// A live object that belongs to another. Nothing is downloaded: all objects must be
    /// in the storage already.
    pub fn read_child_object(&mut self, parent: &ObjectID, child: &ObjectID) -> (r: Found)
        ensures
            r == child_found(old(self).storage@.live, *parent, *child),
            final(self).same_but_events(old(self)),
            final(self).exec_store_events@ == old(self).exec_store_events@.push(
                ExecutionStoreEvent::ObjectStoreGetObject {
                    object_id: *child,
                    result: Ok(old(self).storage@.live.get(*child)),
                },
            ).push(
                ExecutionStoreEvent::ChildObjectResolverStoreReadChildObject {
                    parent: *parent,
                    child: *child,
                    result: r,
                },
            ),
    {
        let res = match self.get_object(child) {
            Ok(Some(obj)) => {
                let owner = Owner::ObjectOwner(SuiAddress { hi: parent.0, lo: parent.1 });
                if obj.owner != owner {
                    Err(
                        SuiError::InvalidChildObjectAccess {
                            object: *child,
                            given_parent: *parent,
                            actual_owner: obj.owner,
                        },
                    )
                } else {
                    Ok(Some(obj))
                }
            },
            Ok(None) => Ok(None),
            Err(err) => Err(err),
        };
        self.exec_store_events.push(
            ExecutionStoreEvent::ChildObjectResolverStoreReadChildObject {
                parent: *parent,
                child: *child,
                result: copy_found(&res),
            },
        );
        res
    }

    /// The reference of a live object. Nothing is downloaded.
    pub fn get_latest_parent_entry_ref(&mut self, object_id: ObjectID) -> (r: Result<
        Option<ObjectRef>,
        SuiError,
    >)
        ensures
            r == Ok::<_, SuiError>(
                match old(self).storage@.live.get(object_id) {
                    Some(obj) => Some(obj.reference()),
                    None => None,
                },
            ),
            final(self).same_but_events(old(self)),
            final(self).exec_store_events@ == old(self).exec_store_events@.push(
                ExecutionStoreEvent::ParentSyncStoreGetLatestParentEntryRef {
                    object_id,
                    result: r,
                },
            ),
    {
        let found: Option<ObjectRef> = match self.storage.live_object(&object_id) {
            Some(obj) => Some(obj.compute_object_reference()),
            None => None,
        };
        self.exec_store_events.push(
            ExecutionStoreEvent::ParentSyncStoreGetLatestParentEntryRef {
                object_id,
                result: Ok(found),
            },
        );
        Ok(found)
    }

    /// Whether what a look for an object at `address` comes to, if anything, is a Move value
    /// of a type.
    pub fn is_resource_of(
        &self,
        address: &ObjectID,
        typ: &StructTag,
        reply: &Option<ObjectsReply>,
    ) -> (r: bool)
        ensures
            r == ((self.at_hand(*address, false) is None && reply is Some ==> answers_one(reply->0))
                && (self.found(*address, false, *reply) matches Some(Ok(Some(obj))) ==> has_type(
                obj,
                *typ,
            ))),
    {
        match self.storage.live_object(address) {
            Some(obj) => is_value_of(&obj, typ),
            None => match reply {
                Some(Ok(objs)) => objs.len() > 0 && is_value_of(&objs[objs.len() - 1], typ),
                _ => true,
            },
        }
    }

    /// The contents of a Move value of a type. An object that is not live is downloaded.
    /// `reply` is what the download gave, once it is over.
    pub fn get_resource(
        &mut self,
        address: &ObjectID,
        typ: &Arc<StructTag>,
        reply: Option<ObjectsReply>,
    ) -> (r: Step<Result<Option<Bytes>, LocalExecError>>)
        requires
            old(self).at_hand(*address, false) is None && reply is Some ==> answers_one(reply->0),
            old(self).found(*address, false, reply) matches Some(Ok(Some(obj))) ==> has_type(
                obj,
                **typ,
            ),
        ensures
            match old(self).found(*address, false, reply) {
                None => r.asks(RequestView::LatestObjects(seq![*address])) && *final(self)
                    == *old(self),
                Some(found) => {
                    &&& r == Step::Done(resource_found(found))
                    &&& final(self).same_but_reading(old(self))
                    &&& final(self).storage@ == old(self).storage_after_looking(
                        *address,
                        false,
                        reply,
                    )
                    &&& final(self).exec_store_events@ == old(self).exec_store_events@.push(
                        ExecutionStoreEvent::ResourceResolverGetResource {
                            address: *address,
                            typ: *typ,
                            result: resource_found(found),
                        },
                    )
                },
            },
    {
        let res = match self.get_or_download_object(address, false, reply) {
            Step::Ask(request) => {
                return Step::Ask(request);
            },
            Step::Done(Ok(Some(obj))) => match &*obj.data {
                Data::Move { contents, .. } => Ok(Some(contents.clone())),
                Data::Package { .. } => {
                    return unreached();
                },
            },
            Step::Done(Ok(None)) => Ok(None),
            Step::Done(Err(err)) => Err(err),
        };
        self.exec_store_events.push(
            ExecutionStoreEvent::ResourceResolverGetResource {
                address: *address,
                typ: typ.clone(),
                result: copy_bytes_found(&res),
            },
        );
        Step::Done(res)
    }

    /// A module of a package, which must be in the storage already: nothing is downloaded.
    pub fn get_module(&mut self, module_id: &Arc<ModuleId>) -> (r: Result<
        Option<Bytes>,
        LocalExecError,
    >)
        ensures
            r == Ok::<_, LocalExecError>(
                module_in(
                    old(self).storage@.packages.get(module_id.address),
                    module_id.name@,
                ),
            ),
            final(self).same_but_events(old(self)),
            final(self).exec_store_events@ == old(self).exec_store_events@.push(
                ExecutionStoreEvent::BackingPackageGetPackageObject {
                    package_id: module_id.address,
                    result: Ok(old(self).storage@.packages.get(module_id.address)),
                },
            ).push(
                ExecutionStoreEvent::ModuleResolverGetModule { module_id: *module_id, result: r },
            ),
    {
        let package = self.storage.package(&module_id.address);
        let res = Ok(find_module_in(&package, &module_id.name));
        self.exec_store_events.push(
            ExecutionStoreEvent::BackingPackageGetPackageObject {
                package_id: module_id.address,
                result: Ok(package),
            },
        );
        self.exec_store_events.push(
            ExecutionStoreEvent::ModuleResolverGetModule {
                module_id: module_id.clone(),
                result: copy_bytes_found(&res),
            },
        );
        res
    }

    /// A live object. Nothing is downloaded.
    pub fn get_object(&mut self, object_id: &ObjectID) -> (r: Found)
        ensures
            r == Ok::<_, SuiError>(old(self).storage@.live.get(*object_id)),
            final(self).same_but_events(old(self)),
            final(self).exec_store_events@ == old(self).exec_store_events@.push(
                ExecutionStoreEvent::ObjectStoreGetObject { object_id: *object_id, result: r },
            ),
    {
        let res = Ok(self.storage.live_object(object_id));
        self.exec_store_events.push(
            ExecutionStoreEvent::ObjectStoreGetObject {
                object_id: *object_id,
                result: copy_found(&res),
            },
        );
        res
    }

    /// A live object, if it is live at a version. Nothing is downloaded.
    pub fn get_object_by_key(&mut self, object_id: &ObjectID, version: SequenceNumber) -> (r: Found)
        ensures
            r == Ok::<_, SuiError>(
                found_at_version(old(self).storage@.live, *object_id, version),
            ),
            final(self).same_but_events(old(self)),
            final(self).exec_store_events@ == old(self).exec_store_events@.push(
                ExecutionStoreEvent::ObjectStoreGetObjectByKey {
                    object_id: *object_id,
                    version,
                    result: r,
                },
            ),
    {
        let found = match self.storage.live_object(object_id) {
            Some(obj) => if obj.version == version {
                Some(obj)
            } else {
                None
            },
            None => None,
        };
        let res = Ok(found);
        self.exec_store_events.push(
            ExecutionStoreEvent::ObjectStoreGetObjectByKey {
                object_id: *object_id,
                version,
                result: copy_found(&res),
            },
        );
        res
    }

    /// A module in its binary form. A package that is not at hand is downloaded. `reply` is
    /// what the download gave, once it is over.
    pub fn get_module_by_id(&mut self, id: &Arc<ModuleId>, reply: Option<ObjectsReply>) -> (r: Step<
        Result<Option<Bytes>, LocalExecError>,
    >)
        requires
            old(self).at_hand(id.address, true) is None && reply is Some ==> answers_one(reply->0),
        ensures
            match old(self).found(id.address, true, reply) {
                None => r.asks(RequestView::LatestObjects(seq![id.address])) && *final(self)
                    == *old(self),
                Some(found) => {
                    &&& r == Step::Done(module_found(package_found(found), id.name@))
                    &&& final(self).same_but_reading(old(self))
                    &&& final(self).storage@ == old(self).storage_after_looking(
                        id.address,
                        true,
                        reply,
                    )
                    &&& final(self).exec_store_events@ == old(self).exec_store_events@.push(
                        ExecutionStoreEvent::BackingPackageGetPackageObject {
                            package_id: id.address,
                            result: package_found(found),
                        },
                    ).push(
                        ExecutionStoreEvent::GetModuleGetModuleByModuleId {
                            id: *id,
                            result: module_found(package_found(found), id.name@),
                        },
                    )
                },
            },
    {
        let res = match self.get_package_object(&id.address, reply) {
            Step::Ask(request) => {
                return Step::Ask(request);
            },
            Step::Done(Ok(obj)) => Ok(find_module_in(&obj, &id.name)),
            Step::Done(Err(err)) => Err(LocalExecError::SuiError { err }),
        };
        self.exec_store_events.push(
            ExecutionStoreEvent::GetModuleGetModuleByModuleId {
                id: id.clone(),
                result: copy_bytes_found(&res),
            },
        );
        Step::Done(res)
    }
}

/// The ways to read a live object agree: one that is found at a version is the live object
/// and has that version, and one that a parent may look at is the live object and
/// belongs to that parent.
pub proof fn law_reads_agree(
    live: Map<ObjectID, Object>,
    parent: ObjectID,
    id: ObjectID,
    version: SequenceNumber,
    obj: Object,
)
    ensures
        found_at_version(live, id, version) == Some(obj) <==> live.get(id) == Some(obj)
            && obj.version == version,
        child_found(live, parent, id) == Ok::<_, SuiError>(Some(obj)) <==> live.get(id) == Some(
            obj,
        ) && obj.owner == Owner::ObjectOwner(SuiAddress::of_object(parent)),
{
}

/// A package that was read once is read again without asking the node, and is the same.
pub proof fn law_packages_are_read_once(
    before: &LocalExec,
    after: &LocalExec,
    id: ObjectID,
    reply: ObjectsReply,
    later: Option<ObjectsReply>,
    obj: Object,
)
    requires
        before.found(id, true, Some(reply)) == Some(Ok::<_, LocalExecError>(Some(obj))),
        obj.is_package(),
        after.storage@ == before.storage_after_looking(id, true, Some(reply)),
    ensures
        after.found(id, true, later) == Some(Ok::<_, LocalExecError>(Some(obj))),
{
}

/// A live object is found by its identifier, and what was found is recorded.
pub proof fn law_live_objects_are_found(
    before: &LocalExec,
    id: &ObjectID,
    after: &LocalExec,
    r: Found,
)
    requires
        exists|session: &mut LocalExec|
            *session == *before && *final(session) == *after && #[trigger] call_ensures(
                LocalExec::get_object,
                (session, id),
                r,
            ),
    ensures
        *after == (LocalExec { exec_store_events: after.exec_store_events, ..*before }),
        r == Ok::<_, SuiError>(
            if before.storage@.live.contains_key(*id) {
                Some(before.storage@.live[*id])
            } else {
                None
            },
        ),
        after.exec_store_events@ == before.exec_store_events@.push(
            ExecutionStoreEvent::ObjectStoreGetObject { object_id: *id, result: r },
        ),
{
}

/// A live object is found by its identifier and version only if it is live at this very version.
pub proof fn law_live_objects_are_found_at_their_version(
    before: &LocalExec,
    id: &ObjectID,
    version: SequenceNumber,
    after: &LocalExec,
    r: Found,
)
    requires
        exists|session: &mut LocalExec|
            *session == *before && *final(session) == *after && #[trigger] call_ensures(
                LocalExec::get_object_by_key,
                (session, id, version),
                r,
            ),
    ensures
        *after == (LocalExec { exec_store_events: after.exec_store_events, ..*before }),
        r == Ok::<_, SuiError>(
            if before.storage@.live.contains_key(*id) && before.storage@.live[*id].version
                == version {
                Some(before.storage@.live[*id])
            } else {
                None
            },
        ),
        after.exec_store_events@ == before.exec_store_events@.push(
            ExecutionStoreEvent::ObjectStoreGetObjectByKey { object_id: *id, version, result: r },
        ),
{
}

/// A live object is found as a child of its parent, whose identifier is the address of its
/// owner. For any other parent it is an error that names the child, that parent and the owner.
pub proof fn law_children_are_found_by_their_parent(
    before: &LocalExec,
    parent: &ObjectID,
    child: &ObjectID,
    after: &LocalExec,
    r: Found,
)
    requires
        exists|session: &mut LocalExec|
            *session == *before && *final(session) == *after && #[trigger] call_ensures(
                LocalExec::read_child_object,
                (session, parent, child),
                r,
            ),
    ensures
        *after == (LocalExec { exec_store_events: after.exec_store_events, ..*before }),
        ({
            let live = before.storage@.live;
            if !live.contains_key(*child) {
                r == Ok::<Option<Object>, SuiError>(None)
            } else if live[*child].owner == Owner::ObjectOwner(
                SuiAddress { hi: parent.0, lo: parent.1 },
            ) {
                r == Ok::<_, SuiError>(Some(live[*child]))
            } else {
                r == Err::<Option<Object>, _>(
                    SuiError::InvalidChildObjectAccess {
                        object: *child,
                        given_parent: *parent,
                        actual_owner: live[*child].owner,
                    },
                )
            }
        }),
        after.exec_store_events@.len() == before.exec_store_events@.len() + 2,
        after.exec_store_events@.last()
            == (ExecutionStoreEvent::ChildObjectResolverStoreReadChildObject {
            parent: *parent,
            child: *child,
            result: r,
        }),
        after.exec_store_events@.take(before.exec_store_events@.len() as int)
            == before.exec_store_events@,
{
    assert(after.exec_store_events@.take(before.exec_store_events@.len() as int)
        =~= before.exec_store_events@);
}

/// The reference of a live object is its identifier, version and digest.
pub proof fn law_references_are_those_of_live_objects(
    before: &LocalExec,
    id: ObjectID,
    after: &LocalExec,
    r: Result<Option<ObjectRef>, SuiError>,
)
    requires
        exists|session: &mut LocalExec|
            *session == *before && *final(session) == *after && #[trigger] call_ensures(
                LocalExec::get_latest_parent_entry_ref,
                (session, id),
                r,
            ),
    ensures
        *after == (LocalExec { exec_store_events: after.exec_store_events, ..*before }),
        ({
            let live = before.storage@.live;
            r == Ok::<_, SuiError>(
                if live.contains_key(id) {
                    Some((live[id].id, live[id].version, live[id].digest))
                } else {
                    None
                },
            )
        }),
        after.exec_store_events@ == before.exec_store_events@.push(
            ExecutionStoreEvent::ParentSyncStoreGetLatestParentEntryRef {
                object_id: id,
                result: r,
            },
        ),
{
}

/// Whether the first module with a name stands at a place.
pub open spec fn is_first_module(modules: Seq<(String, Bytes)>, name: Seq<char>, i: int) -> bool {
    &&& 0 <= i < modules.len()
    &&& modules[i].0@ == name
    &&& forall|k: int| 0 <= k < i ==> (#[trigger] modules[k]).0@ != name
}

/// Whether no module has a name.
pub open spec fn has_no_module(modules: Seq<(String, Bytes)>, name: Seq<char>) -> bool {
    forall|k: int| 0 <= k < modules.len() ==> (#[trigger] modules[k]).0@ != name
}

proof fn lemma_module_named(modules: Seq<(String, Bytes)>, name: Seq<char>, i: int)
    ensures
        is_first_module(modules, name, i) ==> module_named(modules, name) == Some(modules[i].1),
        has_no_module(modules, name) ==> module_named(modules, name) is None,
    decreases modules.len(),
{
    if modules.len() > 0 {
        let rest = modules.skip(1);
        assert(forall|k: int| 0 <= k < rest.len() ==> #[trigger] rest[k] == modules[k + 1]);
        lemma_module_named(rest, name, i - 1);
        if is_first_module(modules, name, i) && i > 0 {
            assert(modules[0].0@ != name);
            assert(is_first_module(rest, name, i - 1));
        }
        if has_no_module(modules, name) {
            assert(modules[0].0@ != name);
            assert(has_no_module(rest, name));
        }
    }
}

/// The bytes of a module are those of the first module with its name in the package. Where there
/// is no such module there is nothing.
pub proof fn law_modules_are_found_by_name(
    modules: &Vec<(String, Bytes)>,
    name: &String,
    i: int,
    r: Option<Bytes>,
)
    requires
        call_ensures(find_module, (modules, name), r),
    ensures
        is_first_module(modules@, name@, i) ==> r == Some(modules@[i].1),
        has_no_module(modules@, name@) ==> r is None,
{
    lemma_module_named(modules@, name@, i);
}

/// A module is read from the package with its address, if that is stored already, by its name.
/// If the package is not stored there is nothing, and in no case is anything asked for or
/// stored. What was found is recorded last.
pub proof fn law_modules_are_read_from_stored_packages(
    before: &LocalExec,
    module_id: &Arc<ModuleId>,
    after: &LocalExec,
    r: Result<Option<Bytes>, LocalExecError>,
    i: int,
)
    requires
        exists|session: &mut LocalExec|
            *session == *before && *final(session) == *after && #[trigger] call_ensures(
                LocalExec::get_module,
                (session, module_id),
                r,
            ),
    ensures
        *after == (LocalExec { exec_store_events: after.exec_store_events, ..*before }),
        r is Ok,
        !before.storage@.packages.contains_key(module_id.address) ==> r == Ok::<
            Option<Bytes>,
            LocalExecError,
        >(None),
        before.storage@.packages.contains_key(
            module_id.address,
        ) ==> match *before.storage@.packages[module_id.address].data {
            Data::Move { .. } => r == Ok::<Option<Bytes>, LocalExecError>(None),
            Data::Package { modules } => {
                &&& is_first_module(modules@, module_id.name@, i) ==> r == Ok::<_, LocalExecError>(
                    Some(modules@[i].1),
                )
                &&& has_no_module(modules@, module_id.name@) ==> r == Ok::<
                    Option<Bytes>,
                    LocalExecError,
                >(None)
            },
        },
        after.exec_store_events@.last() == (ExecutionStoreEvent::ModuleResolverGetModule {
            module_id: *module_id,
            result: r,
        }),
        after.exec_store_events@.take(before.exec_store_events@.len() as int)
            == before.exec_store_events@,
{
    assert(after.exec_store_events@.take(before.exec_store_events@.len() as int)
        =~= before.exec_store_events@);
    if before.storage@.packages.contains_key(module_id.address) {
        if let Data::Package { modules } =
            *before.storage@.packages[module_id.address].data {
            lemma_module_named(modules@, module_id.name@, i);
        }
    }
}

/// The text of an error is that of another error.
pub open spec fn node_error(err: LocalExecError) -> ErrorText {
    ErrorText::Of(Arc::new(err))
}

/// A failure of the node, with the reason in it.
pub open spec fn node_error_of(err: LocalExecError) -> LocalExecError {
    LocalExecError::SuiRpcError { err: node_error(err) }
}

/// Whether a storage keeps a download: it is held at its version and, if it is a package, as the
/// package with the identifier that was asked for, and nothing else changes.
pub open spec fn keeps_download(
    before: StorageView,
    asked: ObjectID,
    obj: Object,
    after: StorageView,
) -> bool {
    &&& after.live == before.live
    &&& after.packages == if *obj.data is Package {
        before.packages.insert(asked, obj)
    } else {
        before.packages
    }
    &&& after.versions == before.versions.insert((obj.id, obj.version), obj)
}

/// A package that is stored is read from there, and nothing is asked. Any other is asked for by its
/// identifier, and what comes is the result. A package that does not exist or is deleted is
/// none; any other failure is an error of the store. A package that came is stored as the package
/// with that identifier, nothing becomes live, and what was found is recorded.
pub proof fn law_packages_are_read_or_downloaded(
    before: &LocalExec,
    id: &ObjectID,
    reply: Option<ObjectsReply>,
    after: &LocalExec,
    r: Step<Found>,
)
    requires
        reply matches Some(Ok(objs)) ==> objs@.len() > 0,
        exists|session: &mut LocalExec|
            *session == *before && *final(session) == *after && #[trigger] call_ensures(
                LocalExec::get_package_object,
                (session, id, reply),
                r,
            ),
    ensures
        *after == (LocalExec {
            storage: after.storage,
            exec_store_events: after.exec_store_events,
            ..*before
        }),
        after.storage@.live == before.storage@.live,
        ({
            let packages = before.storage@.packages;
            if packages.contains_key(*id) {
                r == Step::Done(Ok::<_, SuiError>(Some(packages[*id]))) && after.storage@
                    == before.storage@
            } else {
                match reply {
                    None => *after == *before && (r matches Step::Ask(Request::LatestObjects(ids))
                        && ids@ == seq![*id]),
                    Some(Ok(objs)) => {
                        let obj = objs@[objs@.len() - 1];
                        &&& r == Step::Done(Ok::<_, SuiError>(Some(obj)))
                        &&& keeps_download(before.storage@, *id, obj, after.storage@)
                    },
                    Some(Err(err)) => after.storage@ == before.storage@ && if err is ObjectNotExist
                        || err is ObjectDeleted {
                        r == Step::Done(Ok::<Option<Object>, SuiError>(None))
                    } else {
                        r == Step::Done(
                            Err::<Option<Object>, _>(
                                SuiError::GenericStorageError(node_error(node_error_of(err))),
                            ),
                        )
                    },
                }
            }
        }),
        r matches Step::Done(result) ==> after.exec_store_events@
            == before.exec_store_events@.push(
            ExecutionStoreEvent::BackingPackageGetPackageObject { package_id: *id, result },
        ),
{
}

/// A value is read from the live object at its address if there is one, and nothing is asked.
/// Else the latest version of the object is asked for. The result is the contents of the value,
/// and what was found is recorded.
pub proof fn law_values_are_read_or_downloaded(
    before: &LocalExec,
    address: &ObjectID,
    typ: &Arc<StructTag>,
    reply: Option<ObjectsReply>,
    after: &LocalExec,
    r: Step<Result<Option<Bytes>, LocalExecError>>,
)
    requires
        reply matches Some(Ok(objs)) ==> objs@.len() > 0,
        before.found(*address, false, reply) matches Some(Ok(Some(obj))) ==> has_type(obj, **typ),
        exists|session: &mut LocalExec|
            *session == *before && *final(session) == *after && #[trigger] call_ensures(
                LocalExec::get_resource,
                (session, address, typ, reply),
                r,
            ),
    ensures
        *after == (LocalExec {
            storage: after.storage,
            exec_store_events: after.exec_store_events,
            ..*before
        }),
        after.storage@.live == before.storage@.live,
        ({
            let live = before.storage@.live;
            if live.contains_key(*address) {
                &&& r matches Step::Done(Ok(Some(bytes)))
                &&& *live[*address].data matches Data::Move { contents, .. } && contents == bytes
                &&& after.storage@ == before.storage@
            } else {
                match reply {
                    None => *after == *before && (r matches Step::Ask(Request::LatestObjects(ids))
                        && ids@ == seq![*address]),
                    Some(Ok(objs)) => {
                        let obj = objs@[objs@.len() - 1];
                        &&& r matches Step::Done(Ok(Some(bytes)))
                        &&& *obj.data matches Data::Move { contents, .. } && contents == bytes
                        &&& keeps_download(before.storage@, *address, obj, after.storage@)
                    },
                    Some(Err(err)) => after.storage@ == before.storage@ && if err is ObjectNotExist
                        || err is ObjectDeleted {
                        r == Step::Done(Ok::<Option<Bytes>, LocalExecError>(None))
                    } else {
                        r == Step::Done(Err::<Option<Bytes>, _>(node_error_of(err)))
                    },
                }
            }
        }),
        r matches Step::Done(result) ==> after.exec_store_events@
            == before.exec_store_events@.push(
            ExecutionStoreEvent::ResourceResolverGetResource {
                address: *address,
                typ: *typ,
                result,
            },
        ),
{
}

/// A module in its binary form is read from the package with its address, by its name, and a
/// package that is not stored is asked for.
pub proof fn law_modules_are_read_or_downloaded(
    before: &LocalExec,
    id: &Arc<ModuleId>,
    reply: Option<ObjectsReply>,
    after: &LocalExec,
    r: Step<Result<Option<Bytes>, LocalExecError>>,
    i: int,
)
    requires
        reply matches Some(Ok(objs)) ==> objs@.len() > 0,
        exists|session: &mut LocalExec|
            *session == *before && *final(session) == *after && #[trigger] call_ensures(
                LocalExec::get_module_by_id,
                (session, id, reply),
                r,
            ),
    ensures
        *after == (LocalExec {
            storage: after.storage,
            exec_store_events: after.exec_store_events,
            ..*before
        }),
        after.storage@.live == before.storage@.live,
        ({
            let packages = before.storage@.packages;
            let package = if packages.contains_key(id.address) {
                Some(packages[id.address])
            } else {
                match reply {
                    Some(Ok(objs)) => Some(objs@[objs@.len() - 1]),
                    _ => None,
                }
            };
            match package {
                Some(package) => match *package.data {
                    Data::Move { .. } => r == Step::Done(
                        Ok::<Option<Bytes>, LocalExecError>(None),
                    ),
                    Data::Package { modules } => {
                        &&& is_first_module(modules@, id.name@, i) ==> r == Step::Done(
                            Ok::<_, LocalExecError>(Some(modules@[i].1)),
                        )
                        &&& has_no_module(modules@, id.name@) ==> r == Step::Done(
                            Ok::<Option<Bytes>, LocalExecError>(None),
                        )
                    },
                },
                None => match reply {
                    None => *after == *before && (r matches Step::Ask(Request::LatestObjects(ids))
                        && ids@ == seq![id.address]),
                    Some(Err(err)) => if err is ObjectNotExist || err is ObjectDeleted {
                        r == Step::Done(Ok::<Option<Bytes>, LocalExecError>(None))
                    } else {
                        r == Step::Done(
                            Err::<Option<Bytes>, _>(
                                LocalExecError::SuiError {
                                    err: SuiError::GenericStorageError(
                                        node_error(node_error_of(err)),
                                    ),
                                },
                            ),
                        )
                    },
                    Some(Ok(_)) => true,
                },
            }
        }),
        ({
            let packages = before.storage@.packages;
            match reply {
                Some(Ok(objs)) if !packages.contains_key(id.address) => keeps_download(
                    before.storage@,
                    id.address,
                    objs@[objs@.len() - 1],
                    after.storage@,
                ),
                _ => after.storage@ == before.storage@,
            }
        }),
        r matches Step::Done(result) ==> after.exec_store_events@.last() == (
        ExecutionStoreEvent::GetModuleGetModuleByModuleId { id: *id, result })
            && after.exec_store_events@.take(before.exec_store_events@.len() as int)
            == before.exec_store_events@,
{
    let packages = before.storage@.packages;
    if packages.contains_key(id.address) {
        if let Data::Package { modules } = *packages[id.address].data {
            lemma_module_named(modules@, id.name@, i);
        }
    } else if let Some(Ok(objs)) = reply {
        if let Data::Package { modules } = *objs@.last().data {
            lemma_module_named(modules@, id.name@, i);
        }
    }
    if r is Done {
        assert(after.exec_store_events@.take(before.exec_store_events@.len() as int)
            =~= before.exec_store_events@);
    }
}

/// A value can be read as one of a type if the object that is live at its address, or else the
/// one that came, is a Move value with the same address, module and name of its type and the
/// same type arguments. An object of another kind or type is refused, and so is a reply without
/// objects.
pub proof fn law_values_of_a_type_are_told(
    exec: &LocalExec,
    address: &ObjectID,
    typ: &StructTag,
    reply: &Option<ObjectsReply>,
    r: bool,
)
    requires
        call_ensures(LocalExec::is_resource_of, (exec, address, typ, reply), r),
    ensures
        ({
            let live = exec.storage@.live;
            if live.contains_key(*address) {
                r == is_of_type(live[*address], *typ)
            } else {
                match *reply {
                    Some(Ok(objs)) => r == (objs@.len() > 0 && is_of_type(
                        objs@[objs@.len() - 1],
                        *typ,
                    )),
                    _ => r,
                }
            }
        }),
{
    if exec.storage@.live.contains_key(*address) {
        lemma_types(exec.storage@.live[*address], *typ);
    } else if let Some(Ok(objs)) = *reply {
        if objs@.len() > 0 {
            lemma_types(objs@[objs@.len() - 1], *typ);
        }
    }
}

/// Whether an object is a Move value whose type has the parts of another.
pub open spec fn is_of_type(obj: Object, typ: StructTag) -> bool {
    &&& *obj.data matches Data::Move { type_, .. }
    &&& type_.address == typ.address
    &&& type_.module@ == typ.module@
    &&& type_.name@ == typ.name@
    &&& have_same_texts(type_.type_params@, typ.type_params@)
}

proof fn lemma_types(obj: Object, typ: StructTag)
    ensures
        has_type(obj, typ) == is_of_type(obj, typ),
{
    if let Data::Move { type_, .. } = *obj.data {
        let texts = |s: String| s@;
        let a = type_.type_params@;
        let b = typ.type_params@;
        assert(type_@.type_params == a.map_values(texts));
        assert(typ@.type_params == b.map_values(texts));
        if have_same_texts(a, b) {
            assert(a.map_values(texts) =~= b.map_values(texts));
        }
        if type_@ == typ@ {
            assert(a.map_values(texts).len() == a.len() && b.map_values(texts).len() == b.len());
            assert forall|i: int| 0 <= i < a.len() implies (#[trigger] a[i])@ == b[i]@ by {
                assert(a.map_values(texts)[i] == b.map_values(texts)[i]);
            }
        }
    }
}

} // verus!
