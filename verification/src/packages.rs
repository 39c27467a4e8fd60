//! Which version each package of the system had at each protocol version.
use crate::download::ObjectsReply;
use crate::error::LocalExecError;
use crate::listing::{
    borrowed_entries, entries, is_listing, law_every_map_has_its_listing, lemma_ids_are_ordered,
    lemma_numbers_are_ordered, listing, Key,
};
use crate::local_exec::{LocalExec, ProtocolVersionSummary};
use crate::request::{Request, RequestView, Step};
use crate::types::{Object, ObjectID, SequenceNumber, TransactionDigest};
use std::collections::BTreeMap;
use vstd::prelude::*;

verus! {

broadcast use {
    vstd::std_specs::btree::group_btree_axioms,
    vstd::laws_cmp::group_laws_cmp,
};

/// The versions of a package, each with the transaction that brought it.
pub type Revisions = BTreeMap<ObjectID, Vec<(SequenceNumber, TransactionDigest)>>;

/// What `Revisions` hold.
pub type RevisionsView = Map<ObjectID, Seq<(SequenceNumber, TransactionDigest)>>;

pub open spec fn revisions_view(
    revisions: Map<ObjectID, Vec<(SequenceNumber, TransactionDigest)>>,
) -> RevisionsView {
    revisions.map_values(|versions: Vec<(SequenceNumber, TransactionDigest)>| versions@)
}

/// The versions known of a package.
pub open spec fn versions_of(revisions: RevisionsView, id: ObjectID) -> Seq<
    (SequenceNumber, TransactionDigest),
> {
    if revisions.contains_key(id) {
        revisions[id]
    } else {
        Seq::empty()
    }
}

/// The version of each object, and the transaction that brought it, is added to
/// what is known of the object.
pub open spec fn with_round(before: RevisionsView, objs: Seq<Object>) -> RevisionsView
    decreases objs.len(),
{
    if objs.len() == 0 {
        before
    } else {
        let rest = with_round(before, objs.drop_last());
        let obj = objs.last();
        rest.insert(
            obj.id,
            versions_of(rest, obj.id).push((obj.version, obj.previous_transaction)),
        )
    }
}

/// What is known of the packages after some replies with objects.
pub open spec fn with_rounds(replies: Seq<ObjectsReply>) -> RevisionsView
    decreases replies.len(),
{
    if replies.len() == 0 {
        Map::empty()
    } else {
        with_round(with_rounds(replies.drop_last()), replies.last()->Ok_0@)
    }
}

/// The version before that of each object, for those that have one.
pub open spec fn previous_versions(objs: Seq<Object>) -> Seq<(ObjectID, SequenceNumber)>
    decreases objs.len(),
{
    if objs.len() == 0 {
        Seq::empty()
    } else {
        let before = previous_versions(objs.drop_last());
        if objs.last().version == 1 {
            before
        } else {
            before.push((objs.last().id, (objs.last().version - 1) as u64))
        }
    }
}

/// Errors with which a node answers when it no longer has an old version.
pub open spec fn is_pruned(err: LocalExecError) -> bool {
    ||| err is ObjectNotExist
    ||| err is ObjectVersionNotFound
    ||| err is ObjectVersionTooHigh
    ||| err is ObjectDeleted
}

/// Whether an error is one with which a node answers when it no longer has an old version.
pub fn tells_of_pruning(err: &LocalExecError) -> (r: bool)
    ensures
        r == is_pruned(*err),
{
    match err {
        LocalExecError::ObjectNotExist { .. } => true,
        LocalExecError::ObjectVersionNotFound { .. } => true,
        LocalExecError::ObjectVersionTooHigh { .. } => true,
        LocalExecError::ObjectDeleted { .. } => true,
        _ => false,
    }
}

/// All objects of a reply have a version that another one can come before.
pub open spec fn versions_are_positive(reply: ObjectsReply) -> bool {
    reply matches Ok(objs) ==> forall|i: int|
        0 <= i < objs@.len() ==> (#[trigger] objs@[i]).version > 0
}

/// Replies as they come when the versions of packages are followed back: all but the last
/// brought objects, and no object has version 0.
pub open spec fn are_rounds(replies: Seq<ObjectsReply>) -> bool {
    &&& forall|i: int|
        0 <= i < replies.len() - 1 ==> (#[trigger] replies[i] matches Ok(objs) && objs@.len() > 0)
    &&& forall|i: int| 0 <= i < replies.len() ==> versions_are_positive(#[trigger] replies[i])
}

/// The versions of packages have been followed back as far as the node has them.
pub open spec fn is_last_round(replies: Seq<ObjectsReply>) -> bool {
    replies.len() > 0 && match replies.last() {
        Ok(objs) => objs@.len() == 0,
        Err(err) => replies.len() > 1 && is_pruned(err),
    }
}

fn record_round(revisions: &mut Revisions, objs: &Vec<Object>)
    ensures
        revisions_view(final(revisions)@) == with_round(revisions_view(old(revisions)@), objs@),
{
    let mut i: usize = 0;
    assert(objs@.take(0) =~= Seq::empty());
    while i < objs.len()
        invariant
            i <= objs.len(),
            revisions_view(revisions@) == with_round(
                revisions_view(old(revisions)@),
                objs@.take(i as int),
            ),
        decreases objs.len() - i,
    {
        let ghost before = revisions_view(revisions@);
        let obj = &objs[i];
        let mut versions: Vec<(SequenceNumber, TransactionDigest)> = match revisions.remove(
            &obj.id,
        ) {
            Some(versions) => versions,
            None => Vec::new(),
        };
        assert(versions@ == versions_of(before, obj.id));
        versions.push((obj.version, obj.previous_transaction));
        revisions.insert(obj.id, versions);
        assert(objs@.take(i + 1).drop_last() =~= objs@.take(i as int));
        assert(revisions_view(revisions@) =~= before.insert(
            obj.id,
            versions_of(before, obj.id).push((obj.version, obj.previous_transaction)),
        ));
        i += 1;
    }
    assert(objs@.take(i as int) =~= objs@);
}

fn previous_version_refs(objs: &Vec<Object>) -> (r: Vec<(ObjectID, SequenceNumber)>)
    requires
        forall|i: int| 0 <= i < objs@.len() ==> (#[trigger] objs@[i]).version > 0,
    ensures
        r@ == previous_versions(objs@),
{
    let mut refs: Vec<(ObjectID, SequenceNumber)> = Vec::new();
    let mut i: usize = 0;
    while i < objs.len()
        invariant
            i <= objs.len(),
            forall|j: int| 0 <= j < objs@.len() ==> (#[trigger] objs@[j]).version > 0,
            refs@ == previous_versions(objs@.take(i as int)),
        decreases objs.len() - i,
    {
        assert(objs@.take(i + 1).drop_last() =~= objs@.take(i as int));
        assert(objs@[i as int].version > 0);
        let previous: u64 = objs[i].version - 1;
        if previous != 0 {
            refs.push((objs[i].id, previous));
        }
        i += 1;
    }
    assert(objs@.take(i as int) =~= objs@);
    refs
}

/// The version that a transaction brought. Where a list goes from the latest version down and the
/// transaction brought several, it is the oldest of these, which stands last.
pub open spec fn version_by(
    versions: Seq<(SequenceNumber, TransactionDigest)>,
    tx: TransactionDigest,
) -> Option<SequenceNumber>
    decreases versions.len(),
{
    if versions.len() == 0 {
        None
    } else if versions.last().1 == tx {
        Some(versions.last().0)
    } else {
        version_by(versions.drop_last(), tx)
    }
}

fn find_version_by(versions: &Vec<(SequenceNumber, TransactionDigest)>, tx: TransactionDigest) -> (r:
    Option<SequenceNumber>)
    ensures
        r == version_by(versions@, tx),
{
    let mut i: usize = versions.len();
    assert(versions@.take(i as int) =~= versions@);
    while i > 0
        invariant
            i <= versions.len(),
            version_by(versions@, tx) == version_by(versions@.take(i as int), tx),
        decreases i,
    {
        assert(versions@.take(i as int).drop_last() =~= versions@.take(i - 1));
        i -= 1;
        if versions[i].1 == tx {
            return Some(versions[i].0);
        }
    }
    None
}

/// The versions of packages after a transaction brought new ones.
pub open spec fn revised(
    base: Map<ObjectID, SequenceNumber>,
    revisions: RevisionsView,
    tx: TransactionDigest,
) -> Map<ObjectID, SequenceNumber> {
    Map::new(
        |id: ObjectID| base.contains_key(id) || version_by(versions_of(revisions, id), tx) is Some,
        |id: ObjectID|
            match version_by(versions_of(revisions, id), tx) {
                Some(version) => version,
                None => base[id],
            },
    )
}

fn revise(
    base: BTreeMap<ObjectID, SequenceNumber>,
    revisions: &Revisions,
    tx: TransactionDigest,
) -> (r: BTreeMap<ObjectID, SequenceNumber>)
    ensures
        r@ == revised(base@, revisions_view(revisions@), tx),
{
    proof {
        lemma_ids_are_ordered();
    }
    let ghost view = revisions_view(revisions@);
    let ghost old_base = base@;
    let mut working = base;
    let all = entries(revisions);
    let ghost whole = listing(revisions@);
    let mut i: usize = 0;
    while i < all.len()
        invariant
            i <= all.len(),
            view == revisions_view(revisions@),
            borrowed_entries(all@) == whole,
            is_listing(revisions@, whole),
            forall|id: ObjectID| #[trigger]
                working@.get(id) == (if (exists|j: int|
                    0 <= j < i && (#[trigger] whole[j]).0 == id) && version_by(
                    versions_of(view, id),
                    tx,
                ) is Some {
                    version_by(versions_of(view, id), tx)
                } else {
                    old_base.get(id)
                }),
        decreases all.len() - i,
    {
        let ghost before = working@;
        assert(whole[i as int] == (all@[i as int].0, *all@[i as int].1));
        let id: ObjectID = all[i].0;
        assert(revisions@.contains_key(id));
        assert(view[id] == all@[i as int].1@);
        match find_version_by(all[i].1, tx) {
            Some(version) => {
                working.insert(id, version);
            },
            None => {},
        }
        assert forall|other: ObjectID| #[trigger]
            working@.get(other) == (if (exists|j: int|
                0 <= j < i + 1 && (#[trigger] whole[j]).0 == other) && version_by(
                versions_of(view, other),
                tx,
            ) is Some {
                version_by(versions_of(view, other), tx)
            } else {
                old_base.get(other)
            }) by {
            assert(before.get(other) == before.get(other));
            if other == id {
                assert(whole[i as int].0 == other);
            } else {
                assert(working@.get(other) == before.get(other));
            }
        }
        i += 1;
    }
    assert(whole.len() == all@.len());
    let ghost target = revised(old_base, view, tx);
    assert forall|id: ObjectID| working@.get(id) == #[trigger] target.get(id) by {
        if version_by(versions_of(view, id), tx) is Some {
            assert(revisions@.contains_key(id));
        }
    }
    assert forall|id: ObjectID| working@.dom().contains(id) == target.dom().contains(id) by {
        assert(working@.get(id) == target.get(id));
    }
    assert forall|id: ObjectID| working@.dom().contains(id) implies working@[id] == target[id] by {
        assert(working@.get(id) == target.get(id));
    }
    assert(working@ =~= target);
    working
}

/// Tables of package versions, by protocol version.
pub type PackageTables = Map<u64, Map<ObjectID, SequenceNumber>>;

pub open spec fn tables_view(tables: Map<u64, BTreeMap<ObjectID, SequenceNumber>>) -> PackageTables {
    tables.map_values(|table: BTreeMap<ObjectID, SequenceNumber>| table@)
}

/// The table of the protocol version before, or an empty one.
pub open spec fn table_before(tables: PackageTables, version: u64) -> Map<
    ObjectID,
    SequenceNumber,
> {
    if tables.contains_key((version - 1) as u64) {
        tables[(version - 1) as u64]
    } else {
        Map::empty()
    }
}

/// The tables after some protocol versions, one after the other, have been given
/// one: each builds on that of the version before, revised by the transaction that
/// brought the version.
pub open spec fn with_versions(
    before: PackageTables,
    versions: Seq<(u64, ProtocolVersionSummary)>,
    revisions: RevisionsView,
) -> PackageTables
    decreases versions.len(),
{
    if versions.len() == 0 {
        before
    } else {
        let rest = with_versions(before, versions.drop_last(), revisions);
        let (version, summary) = versions.last();
        rest.insert(
            version,
            revised(table_before(rest, version), revisions, summary.epoch_change_tx),
        )
    }
}

/// The tables of package versions have been filled from all versions of the packages.
pub open spec fn fills_tables(
    before: &LocalExec,
    revisions: Result<Revisions, LocalExecError>,
    after: &LocalExec,
    r: Result<(), LocalExecError>,
) -> bool {
    match revisions {
        Ok(revisions) => {
            &&& r is Ok
            &&& *after == (LocalExec {
                protocol_version_system_package_table: after.protocol_version_system_package_table,
                ..*before
            })
            &&& tables_view(after.protocol_version_system_package_table@) == with_versions(
                tables_view(before.protocol_version_system_package_table@),
                listing(before.protocol_version_epoch_table@),
                revisions_view(revisions@),
            )
            &&& forall|version: u64| #[trigger]
                before.protocol_version_epoch_table@.contains_key(version)
                    ==> after.protocol_version_system_package_table@.contains_key(version)
        },
        Err(err) => r == Err::<(), _>(err) && *after == *before,
    }
}

impl LocalExec {
    /// What is known of the versions of the packages of the system, from the replies so far.
    pub open spec fn revisions_step(
        &self,
        replies: Seq<ObjectsReply>,
        r: Step<Result<Revisions, LocalExecError>>,
    ) -> bool {
        if replies.len() == 0 {
            r.asks(
                RequestView::LatestObjects(
                    self.system_packages(
                        listing(self.protocol_version_epoch_table@).last().0,
                    ),
                ),
            )
        } else {
            match replies.last() {
                Ok(objs) => if objs@.len() > 0 {
                    r.asks(RequestView::VersionedObjects(previous_versions(objs@)))
                } else {
                    r matches Step::Done(Ok(revisions)) && revisions_view(revisions@)
                        == with_rounds(replies.drop_last())
                },
                Err(err) => if replies.len() > 1 && is_pruned(err) {
                    r matches Step::Done(Ok(revisions)) && revisions_view(revisions@)
                        == with_rounds(replies.drop_last())
                } else {
                    r == Step::Done(Err::<Revisions, _>(err))
                },
            }
        }
    }

    /// All versions of the packages of the system, back to the first that the node
    /// still has. The latest versions are asked for first, then the versions before
    /// those, and so on. The replies are what the downloads gave so far.
    pub fn system_package_versions(&self, replies: &Vec<ObjectsReply>) -> (r: Step<
        Result<Revisions, LocalExecError>,
    >)
        requires
            self.protocol_version_epoch_table@.len() > 0,
            are_rounds(replies@),
        ensures
            self.revisions_step(replies@, r),
    {
        if replies.len() == 0 {
            proof {
                lemma_numbers_are_ordered();
            }
            let all = entries(&self.protocol_version_epoch_table);
            let ghost whole = listing(self.protocol_version_epoch_table@);
            proof {
                assert(borrowed_entries(all@) == whole);
                if whole.len() == 0 {
                    assert(self.protocol_version_epoch_table@.dom() =~= Set::empty());
                }
                assert(whole.last().0 == all@.last().0);
            }
            return Step::Ask(
                Request::LatestObjects(self.system_package_ids(all[all.len() - 1].0)),
            );
        }
        let last: usize = replies.len() - 1;
        match &replies[last] {
            Ok(objs) => {
                if objs.len() > 0 {
                    assert(versions_are_positive(replies@[last as int]));
                    return Step::Ask(Request::VersionedObjects(previous_version_refs(objs)));
                }
            },
            Err(err) => {
                if !(replies.len() > 1 && tells_of_pruning(err)) {
                    return Step::Done(Err(err.clone()));
                }
            },
        }
        let mut revisions: Revisions = BTreeMap::new();
        assert(revisions_view(revisions@) =~= with_rounds(replies@.take(0)));
        let mut i: usize = 0;
        while i < last
            invariant
                i <= last,
                last == replies@.len() - 1,
                forall|j: int|
                    0 <= j < replies@.len() - 1 ==> (#[trigger] replies@[j] matches Ok(objs)
                        && objs@.len() > 0),
                revisions_view(revisions@) == with_rounds(replies@.take(i as int)),
            decreases last - i,
        {
            assert(replies@.take(i + 1).drop_last() =~= replies@.take(i as int));
            assert(replies@[i as int] is Ok);
            match &replies[i] {
                Ok(objs) => {
                    record_round(&mut revisions, objs);
                },
                Err(_) => {},
            }
            i += 1;
        }
        assert(replies@.take(i as int) =~= replies@.drop_last());
        Step::Done(Ok(revisions))
    }

    /// Fills the tables of package versions, for each protocol version in turn,
    /// from all versions of the packages of the system. Protocol versions begin with 1.
    pub fn populate_protocol_version_tables(
        &mut self,
        revisions: Result<Revisions, LocalExecError>,
    ) -> (r: Result<(), LocalExecError>)
        requires
            revisions is Ok ==> !old(self).protocol_version_epoch_table@.contains_key(0),
        ensures
            fills_tables(old(self), revisions, final(self), r),
    {
        let revisions = match revisions {
            Ok(revisions) => revisions,
            Err(err) => {
                return Err(err);
            },
        };
        proof {
            lemma_numbers_are_ordered();
        }
        let ghost view = revisions_view(revisions@);
        let ghost tables_before = tables_view(self.protocol_version_system_package_table@);
        let ghost whole = listing(self.protocol_version_epoch_table@);
        let epoch_table = self.protocol_version_epoch_table.clone();
        let all = entries(&epoch_table);
        let mut i: usize = 0;
        while i < all.len()
            invariant
                i <= all.len(),
                view == revisions_view(revisions@),
                borrowed_entries(all@) == whole,
                is_listing(epoch_table@, whole),
                !epoch_table@.contains_key(0),
                *self == (LocalExec {
                    protocol_version_system_package_table:
                        self.protocol_version_system_package_table,
                    ..*old(self)
                }),
                tables_view(self.protocol_version_system_package_table@) == with_versions(
                    tables_before,
                    whole.take(i as int),
                    view,
                ),
            decreases all.len() - i,
        {
            let ghost before = tables_view(self.protocol_version_system_package_table@);
            assert(whole[i as int] == (all@[i as int].0, *all@[i as int].1));
            let version: u64 = all[i].0;
            assert(epoch_table@.contains_key(version));
            let previous: u64 = version - 1;
            let base: BTreeMap<ObjectID, SequenceNumber> =
                match self.protocol_version_system_package_table.get(&previous) {
                Some(table) => table.clone(),
                None => BTreeMap::new(),
            };
            assert(base@ == table_before(before, version));
            let working = revise(base, &revisions, all[i].1.epoch_change_tx);
            self.protocol_version_system_package_table.insert(version, working);
            assert(whole.take(i + 1).drop_last() =~= whole.take(i as int));
            assert(tables_view(self.protocol_version_system_package_table@) =~= before.insert(
                version,
                working@,
            ));
            i += 1;
        }
        assert(whole.len() == all@.len());
        assert(whole.take(i as int) =~= whole);
        assert forall|version: u64| #[trigger]
            old(self).protocol_version_epoch_table@.contains_key(
                version,
            ) implies self.protocol_version_system_package_table@.contains_key(version) by {
            law_each_table_builds_on_the_one_before(
                tables_before,
                epoch_table@,
                whole,
                view,
                version,
            );
            assert(tables_view(self.protocol_version_system_package_table@).contains_key(version));
        }
        Ok(())
    }
}

proof fn lemma_tables_are_of_versions(
    before: PackageTables,
    versions: Seq<(u64, ProtocolVersionSummary)>,
    revisions: RevisionsView,
    version: u64,
)
    requires
        forall|i: int| 0 <= i < versions.len() ==> (#[trigger] versions[i]).0 != version,
    ensures
        with_versions(before, versions, revisions).get(version) == before.get(version),
    decreases versions.len(),
{
    if versions.len() > 0 {
        let shorter = versions.drop_last();
        assert forall|i: int| 0 <= i < shorter.len() implies (#[trigger] shorter[i]).0
            != version by {
            assert(shorter[i] == versions[i]);
        }
        lemma_tables_are_of_versions(before, shorter, revisions, version);
        assert(versions.last().0 != version) by {
            assert(versions[versions.len() - 1].0 != version);
        }
    }
}

/// Filling the tables leaves those of other protocol versions as they were.
pub proof fn law_other_tables_stay(
    before: PackageTables,
    epoch_table: Map<u64, ProtocolVersionSummary>,
    versions: Seq<(u64, ProtocolVersionSummary)>,
    revisions: RevisionsView,
    version: u64,
)
    requires
        is_listing(epoch_table, versions),
        !epoch_table.contains_key(version),
    ensures
        with_versions(before, versions, revisions).get(version) == before.get(version),
{
    assert forall|i: int| 0 <= i < versions.len() implies (#[trigger] versions[i]).0 != version by {
        assert(epoch_table.contains_key(versions[i].0));
    }
    lemma_tables_are_of_versions(before, versions, revisions, version);
}

proof fn lemma_table_of_version(
    before: PackageTables,
    versions: Seq<(u64, ProtocolVersionSummary)>,
    revisions: RevisionsView,
    i: int,
)
    requires
        0 <= i < versions.len(),
        versions[i].0 > 0,
        forall|j: int, k: int|
            0 <= j < k < versions.len() ==> (#[trigger] versions[j]).0 < (#[trigger] versions[k]).0,
    ensures
        ({
            let tables = with_versions(before, versions, revisions);
            tables.contains_pair(
                versions[i].0,
                revised(
                    table_before(tables, versions[i].0),
                    revisions,
                    versions[i].1.epoch_change_tx,
                ),
            )
        }),
    decreases versions.len(),
{
    let shorter = versions.drop_last();
    let last = versions[versions.len() - 1];
    assert(forall|j: int| 0 <= j < shorter.len() ==> #[trigger] shorter[j] == versions[j]);
    if i < shorter.len() {
        lemma_table_of_version(before, shorter, revisions, i);
        assert(versions[i].0 < last.0);
    }
}

/// The table of each protocol version is that of the version before, if there is
/// one, with the packages revised by the transaction that brought the version.
pub proof fn law_each_table_builds_on_the_one_before(
    before: PackageTables,
    epoch_table: Map<u64, ProtocolVersionSummary>,
    versions: Seq<(u64, ProtocolVersionSummary)>,
    revisions: RevisionsView,
    version: u64,
)
    requires
        is_listing(epoch_table, versions),
        epoch_table.contains_key(version),
        version > 0,
    ensures
        ({
            let tables = with_versions(before, versions, revisions);
            tables.contains_pair(
                version,
                revised(
                    table_before(tables, version),
                    revisions,
                    epoch_table[version].epoch_change_tx,
                ),
            )
        }),
{
    let i = choose|i: int| 0 <= i < versions.len() && (#[trigger] versions[i]).0 == version;
    assert forall|j: int, k: int| 0 <= j < k < versions.len() implies (#[trigger] versions[j]).0 < (
    #[trigger] versions[k]).0 by {
        assert(versions[j].0.before(versions[k].0));
    }
    assert(epoch_table[versions[i].0] == versions[i].1);
    lemma_table_of_version(before, versions, revisions, i);
}

/// A package that a protocol version does not revise keeps the version that it had
/// at the protocol version before; one that it revises has the version that the
/// transaction brought.
pub proof fn law_packages_carry_over(
    base: Map<ObjectID, SequenceNumber>,
    revisions: RevisionsView,
    tx: TransactionDigest,
    id: ObjectID,
)
    ensures
        match version_by(versions_of(revisions, id), tx) {
            Some(version) => revised(base, revisions, tx).get(id) == Some(version),
            None => revised(base, revisions, tx).get(id) == base.get(id),
        },
{
}

/// The objects that a reply brought.
pub open spec fn round_of(replies: Seq<ObjectsReply>, k: int) -> Seq<Object> {
    replies[k]->Ok_0@
}

/// Whether no two objects have the same identifier.
pub open spec fn ids_differ(objs: Seq<Object>) -> bool {
    forall|i: int, j: int|
        0 <= i < j < objs.len() ==> (#[trigger] objs[i]).id != (#[trigger] objs[j]).id
}

/// Whether the node answered each round with exactly the objects that it was asked for, from the
/// latest versions of different packages to a round in which nothing was left to ask for.
pub open spec fn answers_all_rounds(replies: Seq<ObjectsReply>) -> bool {
    &&& replies.len() > 0
    &&& forall|k: int| 0 <= k < replies.len() ==> (#[trigger] replies[k]) is Ok
    &&& ids_differ(round_of(replies, 0))
    &&& forall|i: int|
        0 <= i < round_of(replies, 0).len() ==> (#[trigger] round_of(replies, 0)[i]).version > 0
    &&& forall|k: int|
        0 < k < replies.len() ==> (#[trigger] round_of(replies, k)).map_values(
            |obj: Object| obj.key(),
        ) == previous_versions(round_of(replies, k - 1))
    &&& round_of(replies, replies.len() - 1).len() == 0
}

/// Whether a package is among objects, at a version.
spec fn has_at(objs: Seq<Object>, id: ObjectID, version: int) -> bool {
    exists|p: int| 0 <= p < objs.len() && (#[trigger] objs[p]).id == id && objs[p].version == version
}

/// Whether an object is one of the first ones, so many versions back.
spec fn is_back_from(first: Seq<Object>, obj: Object, k: int) -> bool {
    exists|i: int|
        0 <= i < first.len() && (#[trigger] first[i]).id == obj.id && obj.version > 0 && obj.version
            + k == first[i].version
}

/// Whether a round holds the packages that have a version so many back, at that version.
spec fn is_round(first: Seq<Object>, objs: Seq<Object>, k: int) -> bool {
    &&& ids_differ(objs)
    &&& forall|p: int| 0 <= p < objs.len() ==> is_back_from(first, #[trigger] objs[p], k)
    &&& forall|i: int|
        0 <= i < first.len() && first[i].version > k ==> has_at(
            objs,
            (#[trigger] first[i]).id,
            first[i].version - k,
        )
}

proof fn lemma_previous_versions(objs: Seq<Object>)
    requires
        ids_differ(objs),
        forall|p: int| 0 <= p < objs.len() ==> (#[trigger] objs[p]).version > 0,
    ensures
        forall|q: int|
            0 <= q < previous_versions(objs).len() ==> has_at(
                objs,
                (#[trigger] previous_versions(objs)[q]).0,
                previous_versions(objs)[q].1 + 1,
            ) && previous_versions(objs)[q].1 > 0,
        forall|p: int|
            0 <= p < objs.len() && (#[trigger] objs[p]).version > 1
                ==> previous_versions(objs).contains((objs[p].id, (objs[p].version - 1) as u64)),
        forall|q: int, t: int|
            0 <= q < t < previous_versions(objs).len() ==> (#[trigger] previous_versions(
                objs,
            )[q]).0 != (#[trigger] previous_versions(objs)[t]).0,
    decreases objs.len(),
{
    if objs.len() > 0 {
        let shorter = objs.drop_last();
        let last = objs[objs.len() - 1];
        let before = previous_versions(shorter);
        let all = previous_versions(objs);
        assert(forall|p: int| 0 <= p < shorter.len() ==> #[trigger] shorter[p] == objs[p]);
        lemma_previous_versions(shorter);
        assert forall|q: int| 0 <= q < before.len() implies {
            &&& has_at(objs, (#[trigger] before[q]).0, before[q].1 + 1)
            &&& before[q].0 != last.id
        } by {
            assert(has_at(shorter, before[q].0, before[q].1 + 1));
            let p = choose|p: int|
                0 <= p < shorter.len() && (#[trigger] shorter[p]).id == before[q].0
                    && shorter[p].version == before[q].1 + 1;
            assert(objs[p] == shorter[p]);
        }
        assert forall|p: int| 0 <= p < objs.len() && (#[trigger] objs[p]).version
            > 1 implies all.contains((objs[p].id, (objs[p].version - 1) as u64)) by {
            let key = (objs[p].id, (objs[p].version - 1) as u64);
            if p < shorter.len() {
                assert(shorter[p].version > 1);
                let q = before.index_of(key);
                assert(all[q] == key);
            } else {
                assert(all.last() == key);
            }
        }
        assert forall|q: int| 0 <= q < all.len() implies has_at(
            objs,
            (#[trigger] all[q]).0,
            all[q].1 + 1,
        ) && all[q].1 > 0 by {
            if q < before.len() {
                assert(all[q] == before[q]);
            } else {
                assert(objs[objs.len() - 1].id == all[q].0);
            }
        }
        assert forall|q: int, t: int| 0 <= q < t < all.len() implies (#[trigger] all[q]).0 != (
        #[trigger] all[t]).0 by {
            assert(all[q] == before[q]);
            if t < before.len() {
                assert(all[t] == before[t]);
            }
        }
    }
}

proof fn lemma_rounds(replies: Seq<ObjectsReply>, k: int)
    requires
        answers_all_rounds(replies),
        0 <= k < replies.len(),
    ensures
        is_round(round_of(replies, 0), round_of(replies, k), k),
    decreases k,
{
    let first = round_of(replies, 0);
    let objs = round_of(replies, k);
    if k == 0 {
        assert forall|p: int| 0 <= p < objs.len() implies is_back_from(
            first,
            #[trigger] objs[p],
            k,
        ) by {
            assert(first[p].id == objs[p].id);
        }
        assert forall|i: int| 0 <= i < first.len() && first[i].version > k implies has_at(
            objs,
            (#[trigger] first[i]).id,
            first[i].version - k,
        ) by {
            assert(objs[i].id == first[i].id);
        }
    } else {
        let above = round_of(replies, k - 1);
        let asked = previous_versions(above);
        lemma_rounds(replies, k - 1);
        assert forall|p: int| 0 <= p < above.len() implies (#[trigger] above[p]).version > 0 by {
            assert(is_back_from(first, above[p], k - 1));
        }
        lemma_previous_versions(above);
        let keys = objs.map_values(|obj: Object| obj.key());
        assert(keys == asked);
        assert(forall|p: int| 0 <= p < objs.len() ==> (#[trigger] objs[p]).key() == keys[p]);
        assert forall|i: int, j: int| 0 <= i < j < objs.len() implies (#[trigger] objs[i]).id != (
        #[trigger] objs[j]).id by {
            assert(objs[i].key() == asked[i]);
            assert(objs[j].key() == asked[j]);
        }
        assert forall|p: int| 0 <= p < objs.len() implies is_back_from(
            first,
            #[trigger] objs[p],
            k,
        ) by {
            assert(objs[p].key() == asked[p]);
            assert(has_at(above, asked[p].0, asked[p].1 + 1));
            let q = choose|q: int|
                0 <= q < above.len() && (#[trigger] above[q]).id == asked[p].0 && above[q].version
                    == asked[p].1 + 1;
            assert(is_back_from(first, above[q], k - 1));
        }
        assert forall|i: int| 0 <= i < first.len() && first[i].version > k implies has_at(
            objs,
            (#[trigger] first[i]).id,
            first[i].version - k,
        ) by {
            assert(has_at(above, first[i].id, first[i].version - (k - 1)));
            let q = choose|q: int|
                0 <= q < above.len() && (#[trigger] above[q]).id == first[i].id
                    && above[q].version == first[i].version - (k - 1);
            assert(above[q].version > 1);
            let p = asked.index_of((above[q].id, (above[q].version - 1) as u64));
            assert(keys[p] == asked[p]);
            assert(objs[p].key() == keys[p]);
        }
    }
}

proof fn lemma_round_adds_version(before: RevisionsView, objs: Seq<Object>, id: ObjectID)
    requires
        ids_differ(objs),
    ensures
        forall|p: int|
            0 <= p < objs.len() && (#[trigger] objs[p]).id == id ==> versions_of(
                with_round(before, objs),
                id,
            ) == versions_of(before, id).push((objs[p].version, objs[p].previous_transaction)),
        (forall|p: int| 0 <= p < objs.len() ==> (#[trigger] objs[p]).id != id) ==> versions_of(
            with_round(before, objs),
            id,
        ) == versions_of(before, id),
    decreases objs.len(),
{
    if objs.len() > 0 {
        let shorter = objs.drop_last();
        assert(forall|p: int| 0 <= p < shorter.len() ==> #[trigger] shorter[p] == objs[p]);
        lemma_round_adds_version(before, shorter, id);
        let last = objs[objs.len() - 1];
        if last.id == id {
            assert forall|p: int| 0 <= p < shorter.len() implies (#[trigger] shorter[p]).id
                != id by {
                assert(objs[p].id != objs[objs.len() - 1].id);
            }
        }
        let after = versions_of(with_round(before, objs), id);
        assert forall|p: int| 0 <= p < objs.len() && (#[trigger] objs[p]).id == id implies after
            == versions_of(before, id).push((objs[p].version, objs[p].previous_transaction)) by {
            if p < shorter.len() {
                assert(shorter[p].id == id);
                assert(objs[p].id != objs[objs.len() - 1].id);
            }
        }
        if forall|p: int| 0 <= p < objs.len() ==> (#[trigger] objs[p]).id != id {
            assert(last.id != id);
        }
    }
}

/// Whether a list of versions goes down by ones.
pub open spec fn goes_down_from(
    versions: Seq<(SequenceNumber, TransactionDigest)>,
    latest: SequenceNumber,
) -> bool {
    forall|j: int| 0 <= j < versions.len() ==> (#[trigger] versions[j]).0 == latest - j
}

proof fn lemma_versions_after_rounds(replies: Seq<ObjectsReply>, i: int, n: int)
    requires
        answers_all_rounds(replies),
        0 <= i < round_of(replies, 0).len(),
        0 <= n <= replies.len(),
    ensures
        ({
            let latest = round_of(replies, 0)[i];
            let versions = versions_of(with_rounds(replies.take(n)), latest.id);
            &&& versions.len() == if n < latest.version {
                n
            } else {
                latest.version as int
            }
            &&& goes_down_from(versions, latest.version)
        }),
    decreases n,
{
    let first = round_of(replies, 0);
    let latest = first[i];
    if n == 0 {
        assert(replies.take(0) =~= Seq::empty());
        assert(versions_of(with_rounds(replies.take(0)), latest.id) =~= Seq::empty());
    } else {
        let k = n - 1;
        let objs = round_of(replies, k);
        lemma_versions_after_rounds(replies, i, k);
        lemma_rounds(replies, k);
        assert(replies.take(n).drop_last() =~= replies.take(k));
        assert(replies.take(n).last() == replies[k]);
        let before = with_rounds(replies.take(k));
        lemma_round_adds_version(before, objs, latest.id);
        if latest.version > k {
            assert(has_at(objs, latest.id, latest.version - k));
            let p = choose|p: int|
                0 <= p < objs.len() && (#[trigger] objs[p]).id == latest.id && objs[p].version
                    == latest.version - k;
            assert(objs[p].id == latest.id);
        } else {
            assert forall|p: int| 0 <= p < objs.len() implies (#[trigger] objs[p]).id
                != latest.id by {
                assert(is_back_from(first, objs[p], k));
                let m = choose|m: int|
                    0 <= m < first.len() && (#[trigger] first[m]).id == objs[p].id
                        && objs[p].version > 0 && objs[p].version + k == first[m].version;
                if objs[p].id == latest.id {
                    if m < i {
                        assert(first[m].id != first[i].id);
                    } else if i < m {
                        assert(first[i].id != first[m].id);
                    }
                }
            }
        }
    }
}

/// A node that answers each round with exactly what it was asked for gives the whole story of each
/// package: its versions go from the latest down to 1 by ones.
pub proof fn law_versions_go_down_to_one(replies: Seq<ObjectsReply>, i: int)
    requires
        answers_all_rounds(replies),
        0 <= i < round_of(replies, 0).len(),
    ensures
        ({
            let latest = round_of(replies, 0)[i];
            let versions = versions_of(with_rounds(replies.drop_last()), latest.id);
            &&& versions.len() == latest.version
            &&& goes_down_from(versions, latest.version)
        }),
{
    let n = replies.len() - 1;
    let latest = round_of(replies, 0)[i];
    lemma_versions_after_rounds(replies, i, n);
    lemma_rounds(replies, n);
    assert(replies.take(n) =~= replies.drop_last());
    if latest.version > n {
        assert(has_at(round_of(replies, n), latest.id, latest.version - n));
    }
}

/// Whether the last of the versions of a package that a transaction brought stands at a place.
pub open spec fn is_last_by(
    versions: Seq<(SequenceNumber, TransactionDigest)>,
    tx: TransactionDigest,
    k: int,
) -> bool {
    &&& 0 <= k < versions.len()
    &&& versions[k].1 == tx
    &&& forall|l: int| k < l < versions.len() ==> (#[trigger] versions[l]).1 != tx
}

proof fn lemma_version_by(
    versions: Seq<(SequenceNumber, TransactionDigest)>,
    tx: TransactionDigest,
    k: int,
)
    ensures
        is_last_by(versions, tx, k) ==> version_by(versions, tx) == Some(versions[k].0),
        (forall|l: int| 0 <= l < versions.len() ==> (#[trigger] versions[l]).1 != tx)
            ==> version_by(versions, tx) is None,
    decreases versions.len(),
{
    if versions.len() > 0 {
        let shorter = versions.drop_last();
        let last = versions[versions.len() - 1];
        assert(forall|l: int| 0 <= l < shorter.len() ==> #[trigger] shorter[l] == versions[l]);
        lemma_version_by(shorter, tx, k);
        if is_last_by(versions, tx, k) && k < shorter.len() {
            assert(last.1 != tx);
            assert(is_last_by(shorter, tx, k));
        }
    }
}

/// Whether a transaction brought no revision of a package.
pub open spec fn brings_none(
    revisions: Seq<(SequenceNumber, TransactionDigest)>,
    tx: TransactionDigest,
) -> bool {
    forall|l: int| 0 <= l < revisions.len() ==> (#[trigger] revisions[l]).1 != tx
}

/// The tables that have been filled from all versions of the packages: a package whose revision
/// came with a protocol version is at that revision, and every other is as before.
pub proof fn lemma_filled_tables(
    before: &LocalExec,
    revisions: Revisions,
    after: &LocalExec,
    version: u64,
    id: ObjectID,
    k: int,
)
    requires
        fills_tables(before, Ok(revisions), after, Ok(())),
        !before.protocol_version_epoch_table@.contains_key(0),
        before.protocol_version_epoch_table@.contains_key(version),
    ensures
        after.protocol_version_system_package_table@.contains_key(version),
        ({
            let tables = after.protocol_version_system_package_table@;
            let tx = before.protocol_version_epoch_table@[version].epoch_change_tx;
            let known = revisions@.contains_key(id);
            &&& known && is_last_by(revisions@[id]@, tx, k) ==> tables[version]@.contains_pair(
                id,
                revisions@[id]@[k].0,
            )
            &&& (known ==> brings_none(revisions@[id]@, tx)) ==> if tables.contains_key(
                (version - 1) as u64,
            ) {
                tables[version]@.get(id) == tables[(version - 1) as u64]@.get(id)
            } else {
                tables[version]@.get(id) is None
            }
        }),
{
    let epoch_table = before.protocol_version_epoch_table@;
    let old_tables = tables_view(before.protocol_version_system_package_table@);
    let tables = tables_view(after.protocol_version_system_package_table@);
    let view = revisions_view(revisions@);
    let tx = epoch_table[version].epoch_change_tx;
    law_every_map_has_its_listing(epoch_table);
    law_each_table_builds_on_the_one_before(
        old_tables,
        epoch_table,
        listing(epoch_table),
        view,
        version,
    );
    assert(tables.contains_key(version));
    lemma_version_by(versions_of(view, id), tx, k);
    law_packages_carry_over(table_before(tables, version), view, tx, id);
    if tables.contains_key((version - 1) as u64) {
        assert(after.protocol_version_system_package_table@.contains_key((version - 1) as u64));
    }
    assert(tables[version].get(id) == after.protocol_version_system_package_table@[version]@.get(
        id,
    ));
}

/// Each protocol version has, once the tables are filled, each package at the version that the
/// transaction which brought the protocol version brought. If that transaction brought none,
/// it has the package at the version that the protocol version right before it has, and not at
/// all if that one does not have it.
pub proof fn law_packages_change_only_with_their_revisions(
    before: &LocalExec,
    revisions: Revisions,
    after: &LocalExec,
    r: Result<(), LocalExecError>,
    version: u64,
    id: ObjectID,
    k: int,
)
    requires
        exists|session: &mut LocalExec|
            *session == *before && *final(session) == *after && #[trigger] call_ensures(
                LocalExec::populate_protocol_version_tables,
                (session, Ok::<_, LocalExecError>(revisions)),
                r,
            ),
        !before.protocol_version_epoch_table@.contains_key(0),
        before.protocol_version_epoch_table@.contains_key(version),
    ensures
        r is Ok,
        after.protocol_version_system_package_table@.contains_key(version),
        ({
            let tables = after.protocol_version_system_package_table@;
            let tx = before.protocol_version_epoch_table@[version].epoch_change_tx;
            let known = revisions@.contains_key(id);
            &&& known && is_last_by(revisions@[id]@, tx, k) ==> tables[version]@.contains_pair(
                id,
                revisions@[id]@[k].0,
            )
            &&& (known ==> forall|l: int|
                0 <= l < revisions@[id]@.len() ==> (#[trigger] revisions@[id]@[l]).1 != tx) ==> if (
            tables.contains_key((version - 1) as u64)) {
                tables[version]@.get(id) == tables[(version - 1) as u64]@.get(id)
            } else {
                tables[version]@.get(id) is None
            }
        }),
{
    lemma_filled_tables(before, revisions, after, version, id, k);
}

/// Filling the tables touches nothing but the tables of the protocol versions whose epochs are
/// known, and where the versions of the packages could not be had it changes nothing.
pub proof fn law_filling_touches_only_known_versions(
    before: &LocalExec,
    revisions: Result<Revisions, LocalExecError>,
    after: &LocalExec,
    r: Result<(), LocalExecError>,
    version: u64,
)
    requires
        exists|session: &mut LocalExec|
            *session == *before && *final(session) == *after && #[trigger] call_ensures(
                LocalExec::populate_protocol_version_tables,
                (session, revisions),
                r,
            ),
        revisions is Ok ==> !before.protocol_version_epoch_table@.contains_key(0),
    ensures
        *after == (LocalExec {
            protocol_version_system_package_table: after.protocol_version_system_package_table,
            ..*before
        }),
        revisions matches Err(err) ==> r == Err::<(), _>(err) && *after == *before,
        revisions is Ok ==> r is Ok,
        !before.protocol_version_epoch_table@.contains_key(version) ==> {
            let old_tables = before.protocol_version_system_package_table@;
            let tables = after.protocol_version_system_package_table@;
            &&& tables.contains_key(version) == old_tables.contains_key(version)
            &&& tables.contains_key(version) ==> tables[version]@ == old_tables[version]@
        },
{
    if revisions is Ok && !before.protocol_version_epoch_table@.contains_key(version) {
        let epoch_table = before.protocol_version_epoch_table@;
        let old_tables = tables_view(before.protocol_version_system_package_table@);
        let tables = tables_view(after.protocol_version_system_package_table@);
        law_every_map_has_its_listing(epoch_table);
        law_other_tables_stay(
            old_tables,
            epoch_table,
            listing(epoch_table),
            revisions_view(revisions->Ok_0@),
            version,
        );
        assert(tables.get(version) == old_tables.get(version));
        assert(tables.contains_key(version) == old_tables.contains_key(version));
        if tables.contains_key(version) {
            assert(tables[version] == old_tables[version]);
        }
    }
}

/// The versions of a package among objects, in their order, each with the transaction that
/// brought it.
pub open spec fn versions_among(objs: Seq<Object>, id: ObjectID) -> Seq<
    (SequenceNumber, TransactionDigest),
> {
    objs.filter(|obj: Object| obj.id == id).map_values(
        |obj: Object| (obj.version, obj.previous_transaction),
    )
}

proof fn lemma_versions_among_push(objs: Seq<Object>, obj: Object, id: ObjectID)
    ensures
        versions_among(objs.push(obj), id) == (if obj.id == id {
            versions_among(objs, id).push((obj.version, obj.previous_transaction))
        } else {
            versions_among(objs, id)
        }),
{
    reveal(Seq::filter);
    let all = objs.push(obj);
    assert(all.drop_last() =~= objs);
    assert(versions_among(all, id) =~= (if obj.id == id {
        versions_among(objs, id).push((obj.version, obj.previous_transaction))
    } else {
        versions_among(objs, id)
    }));
}

proof fn lemma_round_is_added(before: RevisionsView, seen: Seq<Object>, objs: Seq<Object>, id: ObjectID)
    requires
        versions_of(before, id) == versions_among(seen, id),
        before.contains_key(id) <==> versions_among(seen, id).len() > 0,
    ensures
        versions_of(with_round(before, objs), id) == versions_among(seen + objs, id),
        with_round(before, objs).contains_key(id) <==> versions_among(seen + objs, id).len() > 0,
    decreases objs.len(),
{
    if objs.len() == 0 {
        assert(seen + objs =~= seen);
    } else {
        let shorter = objs.drop_last();
        let last = objs.last();
        lemma_round_is_added(before, seen, shorter, id);
        lemma_versions_among_push(seen + shorter, last, id);
        assert(seen + objs =~= (seen + shorter).push(last));
    }
}

proof fn lemma_rounds_are_added(replies: Seq<ObjectsReply>, rounds: Seq<Seq<Object>>, id: ObjectID)
    requires
        rounds.len() == replies.len(),
        forall|k: int| 0 <= k < rounds.len() ==> #[trigger] rounds[k] == replies[k]->Ok_0@,
    ensures
        versions_of(with_rounds(replies), id) == versions_among(rounds.flatten_alt(), id),
        with_rounds(replies).contains_key(id) <==> versions_among(rounds.flatten_alt(), id).len()
            > 0,
    decreases replies.len(),
{
    if replies.len() == 0 {
        reveal(Seq::filter);
        assert(versions_among(rounds.flatten_alt(), id) =~= Seq::empty());
    } else {
        let shorter = rounds.drop_last();
        assert forall|k: int| 0 <= k < shorter.len() implies #[trigger] shorter[k]
            == replies.drop_last()[k]->Ok_0@ by {
            assert(shorter[k] == rounds[k]);
        }
        lemma_rounds_are_added(replies.drop_last(), shorter, id);
        assert(rounds[rounds.len() - 1] == replies.last()->Ok_0@);
        lemma_round_is_added(
            with_rounds(replies.drop_last()),
            shorter.flatten_alt(),
            replies.last()->Ok_0@,
            id,
        );
    }
}

proof fn lemma_previous_versions_are_one_less(objs: Seq<Object>)
    requires
        forall|i: int| 0 <= i < objs.len() ==> (#[trigger] objs[i]).version > 0,
    ensures
        previous_versions(objs) == objs.filter(|obj: Object| obj.version > 1).map_values(
            |obj: Object| (obj.id, (obj.version - 1) as u64),
        ),
    decreases objs.len(),
{
    reveal(Seq::filter);
    let kept = objs.filter(|obj: Object| obj.version > 1).map_values(
        |obj: Object| (obj.id, (obj.version - 1) as u64),
    );
    if objs.len() == 0 {
        assert(previous_versions(objs) =~= kept);
    } else {
        let shorter = objs.drop_last();
        assert(forall|i: int| 0 <= i < shorter.len() ==> #[trigger] shorter[i] == objs[i]);
        assert(objs[objs.len() - 1].version > 0);
        lemma_previous_versions_are_one_less(shorter);
        assert(previous_versions(objs) =~= kept);
    }
}

/// The versions of the packages of the system are followed back round by round. First the latest
/// versions of the packages are asked for that the highest known protocol version has, which
/// are all but deepbook before version 5. Then, as long as a round brought objects, each of them is
/// asked for at the version before its own, unless it is at version 1. The search is over when a
/// round brings nothing, or when the node no longer has a version. Any other failure, and any
/// failure in the first round, is an error.
pub proof fn law_package_versions_are_followed_back(
    exec: &LocalExec,
    replies: Vec<ObjectsReply>,
    highest: u64,
    r: Step<Result<Revisions, LocalExecError>>,
)
    requires
        exec.protocol_version_epoch_table@.contains_key(highest),
        forall|other: u64| #[trigger]
            exec.protocol_version_epoch_table@.contains_key(other) ==> other <= highest,
        are_rounds(replies@),
        call_ensures(LocalExec::system_package_versions, (exec, &replies), r),
    ensures
        replies@.len() == 0 ==> {
            &&& r matches Step::Ask(Request::LatestObjects(ids))
            &&& ids@ == exec.params.builtin_package_ids@.filter(
                |id: ObjectID| highest >= 5 || id != exec.params.deepbook_package_id,
            )
        },
        replies@.len() > 0 ==> match replies@.last() {
            Ok(objs) => if objs@.len() > 0 {
                &&& r matches Step::Ask(Request::VersionedObjects(keys))
                &&& keys@ == objs@.filter(|obj: Object| obj.version > 1).map_values(
                    |obj: Object| (obj.id, (obj.version - 1) as u64),
                )
            } else {
                r matches Step::Done(Ok(_))
            },
            Err(err) => if replies@.len() > 1 && (err is ObjectNotExist || err
                is ObjectVersionNotFound || err is ObjectVersionTooHigh || err is ObjectDeleted) {
                r matches Step::Done(Ok(_))
            } else {
                r == Step::Done(Err::<Revisions, _>(err))
            },
        },
{
    let table = exec.protocol_version_epoch_table@;
    assert(table.dom().contains(highest));
    assert(table.len() > 0);
    law_every_map_has_its_listing(table);
    let whole = listing(table);
    let i = choose|i: int| 0 <= i < whole.len() && (#[trigger] whole[i]).0 == highest;
    let end = whole.len() - 1;
    assert(table.contains_key(whole[end].0));
    if i < end {
        assert(whole[i].0.before(whole[end].0));
    }
    assert(whole.last().0 == highest);
    if replies@.len() == 0 {
        lemma_system_packages(exec, highest);
    } else if replies@.last() is Ok {
        assert(versions_are_positive(replies@[replies@.len() - 1]));
        lemma_previous_versions_are_one_less(replies@.last()->Ok_0@);
    }
}

pub proof fn lemma_system_packages(exec: &LocalExec, version: u64)
    ensures
        exec.system_packages(version) == exec.params.builtin_package_ids@.filter(
            |id: ObjectID| version >= 5 || id != exec.params.deepbook_package_id,
        ),
{
    let all = exec.params.builtin_package_ids@;
    let keep = |id: ObjectID| version >= 5 || id != exec.params.deepbook_package_id;
    if version >= 5 {
        lemma_all_are_kept(all, keep);
    } else {
        lemma_filters_agree(all, keep, |id: ObjectID| id != exec.params.deepbook_package_id);
    }
}

proof fn lemma_all_are_kept<T>(all: Seq<T>, keep: spec_fn(T) -> bool)
    requires
        forall|t: T| #[trigger] keep(t),
    ensures
        all.filter(keep) == all,
    decreases all.len(),
{
    reveal(Seq::filter);
    if all.len() > 0 {
        lemma_all_are_kept(all.drop_last(), keep);
        assert(all =~= all.drop_last().push(all.last()));
    }
}

pub proof fn lemma_filters_agree<T>(all: Seq<T>, a: spec_fn(T) -> bool, b: spec_fn(T) -> bool)
    requires
        forall|t: T| #[trigger] a(t) == b(t),
    ensures
        all.filter(a) == all.filter(b),
    decreases all.len(),
{
    reveal(Seq::filter);
    if all.len() > 0 {
        lemma_filters_agree(all.drop_last(), a, b);
    }
}

/// What is found of the packages is what the rounds brought: for each package its versions, in
/// the order in which they came, each with the transaction that brought it. A package
/// that no round brought is not there.
pub proof fn law_package_versions_are_those_that_came(
    exec: &LocalExec,
    replies: Vec<ObjectsReply>,
    rounds: Seq<Seq<Object>>,
    revisions: Revisions,
    id: ObjectID,
)
    requires
        exec.protocol_version_epoch_table@.len() > 0,
        are_rounds(replies@),
        call_ensures(
            LocalExec::system_package_versions,
            (exec, &replies),
            Step::Done(Ok(revisions)),
        ),
        rounds.len() == replies@.len() - 1,
        forall|k: int| 0 <= k < rounds.len() ==> #[trigger] rounds[k] == replies@[k]->Ok_0@,
    ensures
        ({
            let found = rounds.flatten_alt().filter(|obj: Object| obj.id == id).map_values(
                |obj: Object| (obj.version, obj.previous_transaction),
            );
            &&& revisions@.contains_key(id) <==> found.len() > 0
            &&& revisions@.contains_key(id) ==> revisions@[id]@ == found
        }),
{
    lemma_rounds_are_added(replies@.drop_last(), rounds, id);
    assert(revisions_view(revisions@).contains_key(id) == revisions@.contains_key(id));
}

/// A node that no longer has an old version says that the object does not exist, that the
/// version is not there or too high, or that the object is deleted. No other error tells of
/// this.
pub proof fn law_pruning_is_told(err: &LocalExecError, r: bool)
    requires
        call_ensures(tells_of_pruning, (err,), r),
    ensures
        r == match *err {
            LocalExecError::ObjectNotExist { .. } => true,
            LocalExecError::ObjectVersionNotFound { .. } => true,
            LocalExecError::ObjectVersionTooHigh { .. } => true,
            LocalExecError::ObjectDeleted { .. } => true,
            _ => false,
        },
{
}

} // verus!
