//! The objects that a replay has at hand.
use crate::listing::{
    borrowed_entries, entries, is_listing, law_every_map_has_its_listing, lemma_ids_are_ordered,
    lemma_is_the_listing, lemma_keys_are_ordered, listing, values_in_order, Key,
};
use crate::types::{Object, ObjectID, ObjectRef, SequenceNumber};
use std::collections::BTreeMap;
use vstd::prelude::*;

verus! {

broadcast use {
    vstd::std_specs::btree::group_btree_axioms,
    vstd::laws_cmp::group_laws_cmp,
};

/// Objects by what they are looked up with.
#[derive(Debug)]
pub struct Storage {
    /// The objects as the transaction saw them when it ran. They need not be the
    /// latest by now.
    pub live_objects_store: BTreeMap<ObjectID, Object>,
    /// Packages. Packages that are not of the system never change.
    pub package_cache: BTreeMap<ObjectID, Object>,
    /// Objects of all kinds at fixed versions, packages of the system among them.
    pub object_version_cache: BTreeMap<(ObjectID, SequenceNumber), Object>,
}

/// What a `Storage` holds.
#[verifier::ext_equal]
pub struct StorageView {
    pub live: Map<ObjectID, Object>,
    pub packages: Map<ObjectID, Object>,
    pub versions: Map<(ObjectID, SequenceNumber), Object>,
}

impl View for Storage {
    type V = StorageView;

    open spec fn view(&self) -> StorageView {
        StorageView {
            live: self.live_objects_store@,
            packages: self.package_cache@,
            versions: self.object_version_cache@,
        }
    }
}

impl StorageView {
    /// The object is stored in one place or another.
    pub open spec fn holds(self, obj: Object) -> bool {
        ||| exists|id: ObjectID| #[trigger] self.live.contains_pair(id, obj)
        ||| exists|id: ObjectID| #[trigger] self.packages.contains_pair(id, obj)
        ||| exists|key: (ObjectID, SequenceNumber)| #[trigger] self.versions.contains_pair(key, obj)
    }

    /// Nothing is stored.
    pub open spec fn empty() -> StorageView {
        StorageView { live: Map::empty(), packages: Map::empty(), versions: Map::empty() }
    }

    /// The object is also held at its version.
    pub open spec fn with_version(self, obj: Object) -> StorageView {
        StorageView { versions: self.versions.insert(obj.key(), obj), ..self }
    }

    /// The object is also held at its version and, if it is a package, among the packages.
    pub open spec fn with_cached(self, obj: Object) -> StorageView {
        StorageView {
            live: self.live,
            packages: if obj.is_package() {
                self.packages.insert(obj.id, obj)
            } else {
                self.packages
            },
            versions: self.versions.insert(obj.key(), obj),
        }
    }

    /// The object is also held at its version and, if it is a package, as the
    /// package with the identifier that it was asked for by.
    pub open spec fn with_downloaded(self, asked: ObjectID, obj: Object) -> StorageView {
        StorageView {
            packages: if obj.is_package() {
                self.packages.insert(asked, obj)
            } else {
                self.packages
            },
            ..self.with_version(obj)
        }
    }

    /// The object is also held as the one that the transaction saw.
    pub open spec fn with_live(self, obj: Object) -> StorageView {
        StorageView { live: self.live.insert(obj.id, obj), ..self }.with_cached(obj)
    }

    /// Each object is cached, one after the other.
    pub open spec fn with_all_cached(self, objs: Seq<Object>) -> StorageView
        decreases objs.len(),
    {
        if objs.len() == 0 {
            self
        } else {
            self.with_all_cached(objs.drop_last()).with_cached(objs.last())
        }
    }

    /// Each object becomes live, one after the other.
    pub open spec fn with_all_live(self, objs: Seq<Object>) -> StorageView
        decreases objs.len(),
    {
        if objs.len() == 0 {
            self
        } else {
            self.with_all_live(objs.drop_last()).with_live(objs.last())
        }
    }
}

/// The entries of a storage for display, each part in the order of its keys.
#[derive(Debug, PartialEq, Eq)]
pub struct StorageSummary {
    pub live: Vec<(ObjectID, ObjectRef)>,
    pub packages: Vec<(ObjectID, ObjectRef)>,
    pub versions: Vec<(ObjectID, SequenceNumber)>,
}

/// Identifiers of objects in order, each with the reference of the object.
pub open spec fn references_in_order(m: Map<ObjectID, Object>) -> Seq<(ObjectID, ObjectRef)> {
    listing(m).map_values(|entry: (ObjectID, Object)| (entry.0, entry.1.reference()))
}

/// The keys of a map in order.
pub open spec fn versions_in_order(m: Map<(ObjectID, SequenceNumber), Object>) -> Seq<
    (ObjectID, SequenceNumber),
> {
    listing(m).map_values(|entry: ((ObjectID, SequenceNumber), Object)| entry.0)
}

/// The values of a map are those that its entries have.
proof fn lemma_listed_values<K: Key, V>(m: Map<K, V>, value: V)
    requires
        is_listing(m, listing(m)),
    ensures
        values_in_order(m).contains(value) <==> exists|k: K| #[trigger] m.contains_pair(k, value),
{
    let whole = listing(m);
    let values = values_in_order(m);
    if values.contains(value) {
        let i = values.index_of(value);
        assert(whole[i].1 == value);
        assert(m.contains_pair(whole[i].0, value));
    }
    if exists|k: K| #[trigger] m.contains_pair(k, value) {
        let k = choose|k: K| #[trigger] m.contains_pair(k, value);
        assert(m.contains_key(k));
        let i = choose|i: int| 0 <= i < whole.len() && (#[trigger] whole[i]).0 == k;
        assert(values[i] == value);
    }
}

proof fn lemma_contained_in_either<T>(a: Seq<T>, b: Seq<T>, value: T)
    ensures
        (a + b).contains(value) <==> a.contains(value) || b.contains(value),
{
    if a.contains(value) {
        assert((a + b)[a.index_of(value)] == value);
    }
    if b.contains(value) {
        assert((a + b)[a.len() + b.index_of(value)] == value);
    }
    if (a + b).contains(value) {
        let i = (a + b).index_of(value);
        if i < a.len() {
            assert(a[i] == value);
        } else {
            assert(b[i - a.len()] == value);
        }
    }
}

fn values_by_id(m: &BTreeMap<ObjectID, Object>, out: &mut Vec<Object>)
    ensures
        final(out)@ == old(out)@ + values_in_order(m@),
        is_listing(m@, listing(m@)),
{
    proof {
        lemma_ids_are_ordered();
    }
    let all = entries(m);
    let ghost whole = values_in_order(m@);
    let ghost before = out@;
    assert(borrowed_entries(all@) == listing(m@));
    let mut i: usize = 0;
    while i < all.len()
        invariant
            i <= all.len(),
            whole == values_in_order(m@),
            borrowed_entries(all@) == listing(m@),
            out@ == before + whole.take(i as int),
        decreases all.len() - i,
    {
        assert(borrowed_entries(all@)[i as int].1 == *all@[i as int].1);
        assert(whole[i as int] == *all@[i as int].1);
        out.push(all[i].1.clone());
        assert(whole.take(i as int).push(whole[i as int]) =~= whole.take(i + 1));
        i += 1;
        assert(out@ =~= before + whole.take(i as int));
    }
    assert(whole.len() == all@.len());
    assert(whole.take(i as int) =~= whole);
}

fn references_by_id(m: &BTreeMap<ObjectID, Object>) -> (r: Vec<(ObjectID, ObjectRef)>)
    ensures
        r@ == references_in_order(m@),
{
    proof {
        lemma_ids_are_ordered();
    }
    let all = entries(m);
    let mut out: Vec<(ObjectID, ObjectRef)> = Vec::new();
    let ghost whole = references_in_order(m@);
    let mut i: usize = 0;
    while i < all.len()
        invariant
            i <= all.len(),
            whole == references_in_order(m@),
            borrowed_entries(all@) == listing(m@),
            out@ == whole.take(i as int),
        decreases all.len() - i,
    {
        assert(borrowed_entries(all@)[i as int] == (all@[i as int].0, *all@[i as int].1));
        assert(whole[i as int] == (all@[i as int].0, all@[i as int].1.reference()));
        out.push((all[i].0, all[i].1.compute_object_reference()));
        assert(whole.take(i as int).push(whole[i as int]) =~= whole.take(i + 1));
        i += 1;
    }
    assert(whole.len() == all@.len());
    assert(whole.take(i as int) =~= whole);
    out
}

impl Storage {
    /// A storage with nothing in it.
    pub fn default() -> (r: Storage)
        ensures
            r@ == StorageView::empty(),
    {
        Storage {
            live_objects_store: BTreeMap::new(),
            package_cache: BTreeMap::new(),
            object_version_cache: BTreeMap::new(),
        }
    }

    /// All objects: the live ones, then the packages, then those at fixed
    /// versions, each group in the order of its keys. An object that stands in
    /// several groups comes up once for each.
    pub fn all_objects(&self) -> (r: Vec<Object>)
        ensures
            r@ == values_in_order(self@.live) + values_in_order(self@.packages) + values_in_order(
                self@.versions,
            ),
            forall|obj: Object| #[trigger] r@.contains(obj) <==> self@.holds(obj),
    {
        let mut out: Vec<Object> = Vec::new();
        values_by_id(&self.live_objects_store, &mut out);
        values_by_id(&self.package_cache, &mut out);
        proof {
            lemma_keys_are_ordered();
        }
        let ghost before = out@;
        assert(before =~= values_in_order(self@.live) + values_in_order(self@.packages));
        let all = entries(&self.object_version_cache);
        let ghost whole = values_in_order(self@.versions);
        let mut i: usize = 0;
        while i < all.len()
            invariant
                i <= all.len(),
                whole == values_in_order(self@.versions),
                borrowed_entries(all@) == listing(self@.versions),
                out@ == before + whole.take(i as int),
            decreases all.len() - i,
        {
            assert(borrowed_entries(all@)[i as int].1 == *all@[i as int].1);
            assert(whole[i as int] == *all@[i as int].1);
            out.push(all[i].1.clone());
            assert(whole.take(i as int).push(whole[i as int]) =~= whole.take(i + 1));
            i += 1;
            assert(out@ =~= before + whole.take(i as int));
        }
        assert(whole.len() == all@.len());
        assert(whole.take(i as int) =~= whole);
        proof {
            let live = values_in_order(self@.live);
            let packages = values_in_order(self@.packages);
            assert forall|obj: Object| #[trigger] out@.contains(obj) <==> self@.holds(obj) by {
                lemma_listed_values(self@.live, obj);
                lemma_listed_values(self@.packages, obj);
                lemma_listed_values(self@.versions, obj);
                lemma_contained_in_either(live, packages, obj);
                lemma_contained_in_either(live + packages, whole, obj);
            }
        }
        out
    }

    /// What the storage holds, for display.
    pub fn summary(&self) -> (r: StorageSummary)
        ensures
            r.live@ == references_in_order(self@.live),
            r.packages@ == references_in_order(self@.packages),
            r.versions@ == versions_in_order(self@.versions),
    {
        proof {
            lemma_keys_are_ordered();
        }
        let all = entries(&self.object_version_cache);
        let mut versions: Vec<(ObjectID, SequenceNumber)> = Vec::new();
        let ghost whole = versions_in_order(self@.versions);
        let mut i: usize = 0;
        while i < all.len()
            invariant
                i <= all.len(),
                whole == versions_in_order(self@.versions),
                borrowed_entries(all@) == listing(self@.versions),
                versions@ == whole.take(i as int),
            decreases all.len() - i,
        {
            assert(borrowed_entries(all@)[i as int].0 == all@[i as int].0);
            assert(whole[i as int] == all@[i as int].0);
            versions.push(all[i].0);
            assert(whole.take(i as int).push(whole[i as int]) =~= whole.take(i + 1));
            i += 1;
        }
        assert(whole.len() == all@.len());
        assert(whole.take(i as int) =~= whole);
        StorageSummary {
            live: references_by_id(&self.live_objects_store),
            packages: references_by_id(&self.package_cache),
            versions,
        }
    }

    /// The live object with an identifier.
    pub fn live_object(&self, id: &ObjectID) -> (r: Option<Object>)
        ensures
            r == self@.live.get(*id),
    {
        match self.live_objects_store.get(id) {
            Some(obj) => Some(obj.clone()),
            None => None,
        }
    }

    /// The package with an identifier.
    pub fn package(&self, id: &ObjectID) -> (r: Option<Object>)
        ensures
            r == self@.packages.get(*id),
    {
        match self.package_cache.get(id) {
            Some(obj) => Some(obj.clone()),
            None => None,
        }
    }

    /// The object with an identifier, at a version.
    pub fn object_at(&self, id: &ObjectID, version: SequenceNumber) -> (r: Option<Object>)
        ensures
            r == self@.versions.get((*id, version)),
    {
        match self.object_version_cache.get(&(*id, version)) {
            Some(obj) => Some(obj.clone()),
            None => None,
        }
    }

    /// Holds an object at its version.
    pub fn keep_version(&mut self, obj: &Object)
        ensures
            final(self)@ == old(self)@.with_version(*obj),
    {
        self.object_version_cache.insert((obj.id, obj.version), obj.clone());
    }

    /// Holds an object that was asked for by an identifier at its version and, if
    /// it is a package, as the package with that identifier.
    pub fn keep_downloaded(&mut self, asked: &ObjectID, obj: &Object)
        ensures
            final(self)@ == old(self)@.with_downloaded(*asked, *obj),
    {
        if obj.is_package() {
            self.package_cache.insert(*asked, obj.clone());
        }
        self.object_version_cache.insert((obj.id, obj.version), obj.clone());
    }

    /// Holds objects at their versions, and packages among the packages.
    pub fn cache_all(&mut self, objs: &Vec<Object>)
        ensures
            final(self)@ == old(self)@.with_all_cached(objs@),
    {
        let mut i: usize = 0;
        while i < objs.len()
            invariant
                i <= objs.len(),
                self@ == old(self)@.with_all_cached(objs@.take(i as int)),
            decreases objs.len() - i,
        {
            let obj = &objs[i];
            self.object_version_cache.insert((obj.id, obj.version), obj.clone());
            if obj.is_package() {
                self.package_cache.insert(obj.id, obj.clone());
            }
            assert(objs@.take(i + 1).drop_last() =~= objs@.take(i as int));
            i += 1;
        }
        assert(objs@.take(i as int) =~= objs@);
    }

    /// Holds objects as those that the transaction saw, and caches them.
    pub fn backfill(&mut self, objs: &Vec<Object>)
        ensures
            final(self)@ == old(self)@.with_all_live(objs@),
    {
        let mut i: usize = 0;
        while i < objs.len()
            invariant
                i <= objs.len(),
                self@ == old(self)@.with_all_live(objs@.take(i as int)),
            decreases objs.len() - i,
        {
            let obj = &objs[i];
            self.live_objects_store.insert(obj.id, obj.clone());
            self.object_version_cache.insert((obj.id, obj.version), obj.clone());
            if obj.is_package() {
                self.package_cache.insert(obj.id, obj.clone());
            }
            assert(objs@.take(i + 1).drop_last() =~= objs@.take(i as int));
            i += 1;
        }
        assert(objs@.take(i as int) =~= objs@);
    }
}

/// The place of the last object with an identifier.
pub open spec fn is_last_with_id(objs: Seq<Object>, i: int) -> bool {
    0 <= i < objs.len() && forall|j: int|
        i < j < objs.len() ==> (#[trigger] objs[j]).id != objs[i].id
}

/// The place of the last object with an identifier and a version.
pub open spec fn is_last_with_key(objs: Seq<Object>, i: int) -> bool {
    0 <= i < objs.len() && forall|j: int|
        i < j < objs.len() ==> (#[trigger] objs[j]).key() != objs[i].key()
}

/// The place of the last package with an identifier.
pub open spec fn is_last_package(objs: Seq<Object>, i: int) -> bool {
    0 <= i < objs.len() && objs[i].is_package() && forall|j: int|
        i < j < objs.len() && (#[trigger] objs[j]).is_package() ==> objs[j].id != objs[i].id
}

/// What is stored can be read back: after objects have become live, the last of
/// those with an identifier is the live object with it, the last of those with an
/// identifier and a version is held at that version, and the last package with an
/// identifier is the package with it.
pub proof fn law_stored_objects_are_found(before: StorageView, objs: Seq<Object>, i: int)
    ensures
        is_last_with_id(objs, i) ==> before.with_all_live(objs).live.contains_pair(
            objs[i].id,
            objs[i],
        ),
        is_last_with_key(objs, i) ==> before.with_all_live(objs).versions.contains_pair(
            objs[i].key(),
            objs[i],
        ),
        is_last_package(objs, i) ==> before.with_all_live(objs).packages.contains_pair(
            objs[i].id,
            objs[i],
        ),
    decreases objs.len(),
{
    if objs.len() > 0 && 0 <= i < objs.len() - 1 {
        let shorter = objs.drop_last();
        law_stored_objects_are_found(before, shorter, i);
        assert(is_last_with_id(objs, i) ==> is_last_with_id(shorter, i) && objs.last().id
            != objs[i].id);
        assert(is_last_with_key(objs, i) ==> is_last_with_key(shorter, i) && objs.last().key()
            != objs[i].key());
        assert(is_last_package(objs, i) ==> is_last_package(shorter, i) && (
        objs.last().is_package() ==> objs.last().id != objs[i].id));
    }
}

/// Storing touches nothing else: an entry that none of the objects is stored
/// under stays as it was.
pub proof fn law_storing_keeps_other_entries(
    before: StorageView,
    objs: Seq<Object>,
    id: ObjectID,
    version: SequenceNumber,
)
    ensures
        (forall|j: int| 0 <= j < objs.len() ==> (#[trigger] objs[j]).id != id)
            ==> before.with_all_live(objs).live.get(id) == before.live.get(id),
        (forall|j: int| 0 <= j < objs.len() ==> (#[trigger] objs[j]).key() != (id, version))
            ==> before.with_all_live(objs).versions.get((id, version)) == before.versions.get(
            (id, version),
        ),
        (forall|j: int|
            0 <= j < objs.len() && (#[trigger] objs[j]).is_package() ==> objs[j].id != id)
            ==> before.with_all_live(objs).packages.get(id) == before.packages.get(id),
    decreases objs.len(),
{
    if objs.len() > 0 {
        let shorter = objs.drop_last();
        law_storing_keeps_other_entries(before, shorter, id, version);
        assert(forall|j: int| 0 <= j < shorter.len() ==> #[trigger] shorter[j] == objs[j]);
    }
}

/// Caching differs from storing only in that no object becomes live.
pub proof fn law_caching_leaves_live_objects(before: StorageView, objs: Seq<Object>)
    ensures
        before.with_all_cached(objs).live == before.live,
        before.with_all_cached(objs).packages == before.with_all_live(objs).packages,
        before.with_all_cached(objs).versions == before.with_all_live(objs).versions,
    decreases objs.len(),
{
    if objs.len() > 0 {
        law_caching_leaves_live_objects(before, objs.drop_last());
    }
}

impl StorageView {
    /// Each live object stands under its identifier, and each object at a fixed
    /// version under its identifier and version.
    pub open spec fn is_keyed(self) -> bool {
        &&& forall|id: ObjectID| #[trigger] self.live.contains_key(id) ==> self.live[id].id == id
        &&& forall|key: (ObjectID, SequenceNumber)| #[trigger]
            self.versions.contains_key(key) ==> self.versions[key].key() == key
    }

    /// Whatever is stored in one storage is, perhaps with other contents, in another.
    pub open spec fn is_kept_in(self, later: StorageView) -> bool {
        &&& self.live.dom().subset_of(later.live.dom())
        &&& self.packages.dom().subset_of(later.packages.dom())
        &&& self.versions.dom().subset_of(later.versions.dom())
    }
}

/// An object is never found under the identifier or version of another: this holds
/// of the empty storage, and whatever is stored keeps it so.
pub proof fn law_storage_stays_keyed(
    before: StorageView,
    asked: ObjectID,
    obj: Object,
    objs: Seq<Object>,
)
    ensures
        StorageView::empty().is_keyed(),
        before.is_keyed() ==> before.with_version(obj).is_keyed(),
        before.is_keyed() ==> before.with_downloaded(asked, obj).is_keyed(),
        before.is_keyed() ==> before.with_all_cached(objs).is_keyed(),
        before.is_keyed() ==> before.with_all_live(objs).is_keyed(),
    decreases objs.len(),
{
    if objs.len() > 0 {
        law_storage_stays_keyed(before, asked, obj, objs.drop_last());
    }
}

/// Nothing that is stored gets lost, whatever else is stored.
pub proof fn law_storage_only_grows(
    before: StorageView,
    asked: ObjectID,
    obj: Object,
    objs: Seq<Object>,
)
    ensures
        before.is_kept_in(before.with_version(obj)),
        before.is_kept_in(before.with_downloaded(asked, obj)),
        before.is_kept_in(before.with_all_cached(objs)),
        before.is_kept_in(before.with_all_live(objs)),
    decreases objs.len(),
{
    if objs.len() > 0 {
        law_storage_only_grows(before, asked, obj, objs.drop_last());
    }
}

/// Every object that became live is from then on live under its identifier and
/// held at its version.
pub proof fn law_live_objects_are_held(before: StorageView, objs: Seq<Object>, i: int)
    requires
        0 <= i < objs.len(),
    ensures
        before.with_all_live(objs).live.contains_key(objs[i].id),
        before.with_all_live(objs).versions.contains_key(objs[i].key()),
    decreases objs.len(),
{
    if i < objs.len() - 1 {
        law_live_objects_are_held(before, objs.drop_last(), i);
    }
}

/// The values of all three parts of a storage are what the storage holds.
pub proof fn lemma_all_values(storage: StorageView, obj: Object)
    requires
        is_listing(storage.live, listing(storage.live)),
        is_listing(storage.packages, listing(storage.packages)),
        is_listing(storage.versions, listing(storage.versions)),
    ensures
        (values_in_order(storage.live) + values_in_order(storage.packages) + values_in_order(
            storage.versions,
        )).contains(obj) <==> {
            ||| exists|id: ObjectID| #[trigger] storage.live.contains_pair(id, obj)
            ||| exists|id: ObjectID| #[trigger] storage.packages.contains_pair(id, obj)
            ||| exists|key: (ObjectID, SequenceNumber)| #[trigger]
                storage.versions.contains_pair(key, obj)
        },
{
    let live = values_in_order(storage.live);
    let packages = values_in_order(storage.packages);
    lemma_listed_values(storage.live, obj);
    lemma_listed_values(storage.packages, obj);
    lemma_listed_values(storage.versions, obj);
    lemma_contained_in_either(live, packages, obj);
    lemma_contained_in_either(live + packages, values_in_order(storage.versions), obj);
}

/// A storage begins empty.
pub proof fn law_a_storage_begins_empty(r: Storage, id: ObjectID, version: SequenceNumber)
    requires
        call_ensures(Storage::default, (), r),
    ensures
        !r.live_objects_store@.contains_key(id),
        !r.package_cache@.contains_key(id),
        !r.object_version_cache@.contains_key((id, version)),
{
}

/// Each of the three parts of a storage is read by its own keys.
pub proof fn law_each_part_is_read_by_its_keys(
    storage: &Storage,
    id: &ObjectID,
    version: SequenceNumber,
    live: Option<Object>,
    package: Option<Object>,
    at_version: Option<Object>,
)
    requires
        call_ensures(Storage::live_object, (storage, id), live),
        call_ensures(Storage::package, (storage, id), package),
        call_ensures(Storage::object_at, (storage, id, version), at_version),
    ensures
        live == storage.live_objects_store@.get(*id),
        package == storage.package_cache@.get(*id),
        at_version == storage.object_version_cache@.get((*id, version)),
{
}

/// An object that is kept at its version is found there, and nothing else changes.
pub proof fn law_an_object_is_kept_at_its_version(
    before: &Storage,
    obj: &Object,
    after: &Storage,
    r: (),
)
    requires
        exists|storage: &mut Storage|
            *storage == *before && *final(storage) == *after && #[trigger] call_ensures(
                Storage::keep_version,
                (storage, obj),
                r,
            ),
    ensures
        after.object_version_cache@ == before.object_version_cache@.insert(
            (obj.id, obj.version),
            *obj,
        ),
        after.package_cache@ == before.package_cache@,
        after.live_objects_store@ == before.live_objects_store@,
{
    assert(after@ == before@.with_version(*obj));
}

/// A download is kept at its own version and, if it is a package, as the package that was asked
/// for. It does not become live.
pub proof fn law_a_download_is_kept(
    before: &Storage,
    asked: &ObjectID,
    obj: &Object,
    after: &Storage,
    r: (),
)
    requires
        exists|storage: &mut Storage|
            *storage == *before && *final(storage) == *after && #[trigger] call_ensures(
                Storage::keep_downloaded,
                (storage, asked, obj),
                r,
            ),
    ensures
        after.object_version_cache@ == before.object_version_cache@.insert(
            (obj.id, obj.version),
            *obj,
        ),
        *obj.data is Package ==> after.package_cache@ == before.package_cache@.insert(*asked, *obj),
        *obj.data is Move ==> after.package_cache@ == before.package_cache@,
        after.live_objects_store@ == before.live_objects_store@,
{
    assert(after@ == before@.with_downloaded(*asked, *obj));
}

/// Whether no object from a place on has an identifier.
pub open spec fn none_with_id(objs: Seq<Object>, start: int, id: ObjectID) -> bool {
    forall|j: int| start <= j < objs.len() ==> (#[trigger] objs[j]).id != id
}

/// Whether no package from a place on has an identifier.
pub open spec fn no_package_with_id(objs: Seq<Object>, start: int, id: ObjectID) -> bool {
    forall|j: int|
        start <= j < objs.len() && *(#[trigger] objs[j]).data is Package ==> objs[j].id != id
}

/// Whether no object from a place on has an identifier and a version.
pub open spec fn none_at_version(
    objs: Seq<Object>,
    start: int,
    id: ObjectID,
    version: SequenceNumber,
) -> bool {
    forall|j: int|
        start <= j < objs.len() ==> !((#[trigger] objs[j]).id == id && objs[j].version == version)
}

/// Of the objects that become live the last with an identifier is the live object with it, the
/// last package with an identifier is the package with it, and the last with an identifier and a
/// version is held at that version. Where there is none, what was there before stays.
pub proof fn law_objects_become_live(
    before: &Storage,
    objs: &Vec<Object>,
    after: &Storage,
    r: (),
    i: int,
    id: ObjectID,
    version: SequenceNumber,
)
    requires
        exists|storage: &mut Storage|
            *storage == *before && *final(storage) == *after && #[trigger] call_ensures(
                Storage::backfill,
                (storage, objs),
                r,
            ),
    ensures
        0 <= i < objs@.len() && none_with_id(objs@, i + 1, objs@[i].id)
            ==> after.live_objects_store@.contains_pair(objs@[i].id, objs@[i]),
        0 <= i < objs@.len() && *objs@[i].data is Package && no_package_with_id(
            objs@,
            i + 1,
            objs@[i].id,
        ) ==> after.package_cache@.contains_pair(objs@[i].id, objs@[i]),
        0 <= i < objs@.len() && none_at_version(objs@, i + 1, objs@[i].id, objs@[i].version)
            ==> after.object_version_cache@.contains_pair(
            (objs@[i].id, objs@[i].version),
            objs@[i],
        ),
        none_with_id(objs@, 0, id) ==> after.live_objects_store@.get(id)
            == before.live_objects_store@.get(id),
        no_package_with_id(objs@, 0, id) ==> after.package_cache@.get(id)
            == before.package_cache@.get(id),
        none_at_version(objs@, 0, id, version) ==> after.object_version_cache@.get((id, version))
            == before.object_version_cache@.get((id, version)),
{
    assert(after@ == before@.with_all_live(objs@));
    lemma_live_entries(before@, objs@, i, id, version);
}

/// What is stored under an identifier, or an identifier and a version, once objects have become
/// live.
pub proof fn lemma_live_entries(
    before: StorageView,
    objs: Seq<Object>,
    i: int,
    id: ObjectID,
    version: SequenceNumber,
)
    ensures
        ({
            let after = before.with_all_live(objs);
            let obj = objs[i];
            &&& 0 <= i < objs.len() && none_with_id(objs, i + 1, obj.id)
                ==> after.live.contains_pair(obj.id, obj)
            &&& 0 <= i < objs.len() && *obj.data is Package && no_package_with_id(
                objs,
                i + 1,
                obj.id,
            ) ==> after.packages.contains_pair(obj.id, obj)
            &&& 0 <= i < objs.len() && none_at_version(objs, i + 1, obj.id, obj.version)
                ==> after.versions.contains_pair((obj.id, obj.version), obj)
            &&& none_with_id(objs, 0, id) ==> after.live.get(id) == before.live.get(id)
            &&& no_package_with_id(objs, 0, id) ==> after.packages.get(id) == before.packages.get(
                id,
            )
            &&& none_at_version(objs, 0, id, version) ==> after.versions.get((id, version))
                == before.versions.get((id, version))
        }),
{
    law_stored_objects_are_found(before, objs, i);
    law_storing_keeps_other_entries(before, objs, id, version);
}

/// Objects that are cached are held at their versions, and packages among the packages, as when
/// objects become live. But no object becomes live.
pub proof fn law_objects_are_cached(
    before: &Storage,
    objs: &Vec<Object>,
    after: &Storage,
    r: (),
    i: int,
    id: ObjectID,
    version: SequenceNumber,
)
    requires
        exists|storage: &mut Storage|
            *storage == *before && *final(storage) == *after && #[trigger] call_ensures(
                Storage::cache_all,
                (storage, objs),
                r,
            ),
    ensures
        after.live_objects_store@ == before.live_objects_store@,
        0 <= i < objs@.len() && *objs@[i].data is Package && no_package_with_id(
            objs@,
            i + 1,
            objs@[i].id,
        ) ==> after.package_cache@.contains_pair(objs@[i].id, objs@[i]),
        0 <= i < objs@.len() && none_at_version(objs@, i + 1, objs@[i].id, objs@[i].version)
            ==> after.object_version_cache@.contains_pair(
            (objs@[i].id, objs@[i].version),
            objs@[i],
        ),
        no_package_with_id(objs@, 0, id) ==> after.package_cache@.get(id)
            == before.package_cache@.get(id),
        none_at_version(objs@, 0, id, version) ==> after.object_version_cache@.get((id, version))
            == before.object_version_cache@.get((id, version)),
{
    assert(after@ == before@.with_all_cached(objs@));
    law_caching_leaves_live_objects(before@, objs@);
    lemma_live_entries(before@, objs@, i, id, version);
}

/// Whether an identifier is smaller than another: by its high part, then by its low one.
pub open spec fn is_smaller_id(a: ObjectID, b: ObjectID) -> bool {
    a.0 < b.0 || (a.0 == b.0 && a.1 < b.1)
}

/// Whether a sequence goes through the objects of a map, by growing identifiers.
pub open spec fn goes_through(all: Seq<(ObjectID, Object)>, m: Map<ObjectID, Object>) -> bool {
    &&& forall|i: int, j: int|
        0 <= i < j < all.len() ==> is_smaller_id(#[trigger] all[i].0, #[trigger] all[j].0)
    &&& forall|i: int| 0 <= i < all.len() ==> m.contains_pair((#[trigger] all[i]).0, all[i].1)
    &&& forall|id: ObjectID| #[trigger]
        m.contains_key(id) ==> exists|i: int| 0 <= i < all.len() && (#[trigger] all[i]).0 == id
}

/// Whether a sequence goes through the objects of a map, by growing identifiers and then by growing
/// versions.
pub open spec fn goes_through_versions(
    all: Seq<((ObjectID, SequenceNumber), Object)>,
    m: Map<(ObjectID, SequenceNumber), Object>,
) -> bool {
    &&& forall|i: int, j: int|
        0 <= i < j < all.len() ==> {
            let a = (#[trigger] all[i]).0;
            let b = (#[trigger] all[j]).0;
            is_smaller_id(a.0, b.0) || (a.0 == b.0 && a.1 < b.1)
        }
    &&& forall|i: int| 0 <= i < all.len() ==> m.contains_pair((#[trigger] all[i]).0, all[i].1)
    &&& forall|key: (ObjectID, SequenceNumber)| #[trigger]
        m.contains_key(key) ==> exists|i: int| 0 <= i < all.len() && (#[trigger] all[i]).0 == key
}

proof fn lemma_listings(
    storage: StorageView,
    live: Seq<(ObjectID, Object)>,
    packages: Seq<(ObjectID, Object)>,
    versions: Seq<((ObjectID, SequenceNumber), Object)>,
)
    requires
        goes_through(live, storage.live),
        goes_through(packages, storage.packages),
        goes_through_versions(versions, storage.versions),
    ensures
        live == listing(storage.live),
        packages == listing(storage.packages),
        versions == listing(storage.versions),
{
    assert forall|i: int, j: int| 0 <= i < j < live.len() implies (
    #[trigger] live[i]).0.before((#[trigger] live[j]).0) by {
        assert(is_smaller_id(live[i].0, live[j].0));
    }
    assert forall|i: int, j: int| 0 <= i < j < packages.len() implies (
    #[trigger] packages[i]).0.before((#[trigger] packages[j]).0) by {
        assert(is_smaller_id(packages[i].0, packages[j].0));
    }
    assert forall|i: int, j: int| 0 <= i < j < versions.len() implies (
    #[trigger] versions[i]).0.before((#[trigger] versions[j]).0) by {
        let a = versions[i].0;
        let b = versions[j].0;
        assert(is_smaller_id(a.0, b.0) ==> a.0.before(b.0));
    }
    lemma_is_the_listing(storage.live, live);
    lemma_is_the_listing(storage.packages, packages);
    lemma_is_the_listing(storage.versions, versions);
}

/// All objects of a storage are the live ones, the packages and those at fixed versions, in this
/// order, each part by growing keys. So an object is among them just if it is stored somewhere.
pub proof fn law_all_objects_are_those_of_the_three_parts(
    storage: &Storage,
    r: Vec<Object>,
    live: Seq<(ObjectID, Object)>,
    packages: Seq<(ObjectID, Object)>,
    versions: Seq<((ObjectID, SequenceNumber), Object)>,
    obj: Object,
)
    requires
        call_ensures(Storage::all_objects, (storage,), r),
        goes_through(live, storage.live_objects_store@),
        goes_through(packages, storage.package_cache@),
        goes_through_versions(versions, storage.object_version_cache@),
    ensures
        r@ == live.map_values(|entry: (ObjectID, Object)| entry.1) + packages.map_values(
            |entry: (ObjectID, Object)| entry.1,
        ) + versions.map_values(|entry: ((ObjectID, SequenceNumber), Object)| entry.1),
        r@.contains(obj) <==> {
            ||| exists|id: ObjectID| #[trigger] storage.live_objects_store@.contains_pair(id, obj)
            ||| exists|id: ObjectID| #[trigger] storage.package_cache@.contains_pair(id, obj)
            ||| exists|key: (ObjectID, SequenceNumber)| #[trigger]
                storage.object_version_cache@.contains_pair(key, obj)
        },
{
    lemma_listings(storage@, live, packages, versions);
    assert(live.map_values(|entry: (ObjectID, Object)| entry.1) =~= values_in_order(storage@.live));
    assert(packages.map_values(|entry: (ObjectID, Object)| entry.1) =~= values_in_order(
        storage@.packages,
    ));
    assert(versions.map_values(|entry: ((ObjectID, SequenceNumber), Object)| entry.1)
        =~= values_in_order(storage@.versions));
    law_every_map_has_its_listing(storage@.live);
    law_every_map_has_its_listing(storage@.packages);
    law_every_map_has_its_listing(storage@.versions);
    lemma_all_values(storage@, obj);
}

/// The summary of a storage shows each live object and each package with its reference, which is
/// its identifier, version and digest, and the keys of the objects at fixed versions. Each part
/// goes by growing keys.
pub proof fn law_the_summary_shows_every_entry(
    storage: &Storage,
    r: StorageSummary,
    live: Seq<(ObjectID, Object)>,
    packages: Seq<(ObjectID, Object)>,
    versions: Seq<((ObjectID, SequenceNumber), Object)>,
)
    requires
        call_ensures(Storage::summary, (storage,), r),
        goes_through(live, storage.live_objects_store@),
        goes_through(packages, storage.package_cache@),
        goes_through_versions(versions, storage.object_version_cache@),
    ensures
        r.live@ == live.map_values(
            |entry: (ObjectID, Object)|
                (entry.0, (entry.1.id, entry.1.version, entry.1.digest)),
        ),
        r.packages@ == packages.map_values(
            |entry: (ObjectID, Object)|
                (entry.0, (entry.1.id, entry.1.version, entry.1.digest)),
        ),
        r.versions@ == versions.map_values(
            |entry: ((ObjectID, SequenceNumber), Object)| entry.0,
        ),
{
    lemma_listings(storage@, live, packages, versions);
    assert(r.live@ =~= live.map_values(
        |entry: (ObjectID, Object)| (entry.0, (entry.1.id, entry.1.version, entry.1.digest)),
    ));
    assert(r.packages@ =~= packages.map_values(
        |entry: (ObjectID, Object)| (entry.0, (entry.1.id, entry.1.version, entry.1.digest)),
    ));
    assert(r.versions@ =~= versions.map_values(
        |entry: ((ObjectID, SequenceNumber), Object)| entry.0,
    ));
}

} // verus!
