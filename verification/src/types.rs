//! Plain values that a replay works on: identifiers, objects and transactions
//! as the chain reports them.
use std::sync::Arc;
use vstd::prelude::*;

verus! {

/// The 32 bytes of an object identifier, as two big-endian halves. Comparing
/// the pairs orders identifiers as comparing their bytes does.
pub type ObjectID = (u128, u128);

/// Whether two identifiers are the same.
pub fn same_id(a: &ObjectID, b: &ObjectID) -> (r: bool)
    ensures
        r == (*a == *b),
{
    a.0 == b.0 && a.1 == b.1
}

/// The version of an object.
pub type SequenceNumber = u64;

/// The 32 bytes of a transaction digest.
#[derive(Clone, Copy, Debug, PartialEq, Eq, Structural)]
pub struct TransactionDigest {
    pub hi: u128,
    pub lo: u128,
}

/// One event: the transaction that emitted it, and its place among the events of that
/// transaction.
#[derive(Clone, Copy, Debug, PartialEq, Eq, Structural)]
pub struct EventCursor {
    pub tx_digest: TransactionDigest,
    pub event_seq: u64,
}

/// The 32 bytes of an object digest.
#[derive(Clone, Copy, Debug, PartialEq, Eq, Structural)]
pub struct ObjectDigest {
    pub hi: u128,
    pub lo: u128,
}

/// The 32 bytes of an account address.
#[derive(Clone, Copy, Debug, PartialEq, Eq, Structural)]
pub struct SuiAddress {
    pub hi: u128,
    pub lo: u128,
}

impl SuiAddress {
    /// The address whose bytes are all zero.
    pub open spec fn zero() -> SuiAddress {
        SuiAddress { hi: 0, lo: 0 }
    }

    /// The address with the bytes of an object identifier.
    pub open spec fn of_object(id: ObjectID) -> SuiAddress {
        SuiAddress { hi: id.0, lo: id.1 }
    }
}

/// Identifier, version and digest of one object.
pub type ObjectRef = (ObjectID, SequenceNumber, ObjectDigest);

/// Who may use an object.
#[derive(Clone, Copy, Debug, PartialEq, Eq, Structural)]
pub enum Owner {
    AddressOwner(SuiAddress),
    ObjectOwner(SuiAddress),
    Shared { initial_shared_version: SequenceNumber },
    Immutable,
}

/// The name of a Move struct type. Each type argument is given in its textual form.
#[derive(Debug, PartialEq, Eq)]
pub struct StructTag {
    pub address: ObjectID,
    pub module: String,
    pub name: String,
    pub type_params: Vec<String>,
}

/// What a `StructTag` says.
#[verifier::ext_equal]
pub struct StructTagView {
    pub address: ObjectID,
    pub module: Seq<char>,
    pub name: Seq<char>,
    pub type_params: Seq<Seq<char>>,
}

impl View for StructTag {
    type V = StructTagView;

    open spec fn view(&self) -> StructTagView {
        StructTagView {
            address: self.address,
            module: self.module@,
            name: self.name@,
            type_params: self.type_params@.map_values(|s: String| s@),
        }
    }
}

impl StructTag {
    /// Whether two tags name the same type.
    pub fn same_as(&self, other: &StructTag) -> (r: bool)
        ensures
            r == (self@ == other@),
    {
        if !same_id(&self.address, &other.address) || self.module != other.module || self.name
            != other.name {
            return false;
        }
        if self.type_params.len() != other.type_params.len() {
            assert(self@.type_params.len() != other@.type_params.len());
            return false;
        }
        let mut i: usize = 0;
        while i < self.type_params.len()
            invariant
                i <= self.type_params.len(),
                self.type_params.len() == other.type_params.len(),
                forall|j: int|
                    0 <= j < i ==> #[trigger] self.type_params@[j]@ == other.type_params@[j]@,
            decreases self.type_params.len() - i,
        {
            if self.type_params[i] != other.type_params[i] {
                assert(self@.type_params[i as int] != other@.type_params[i as int]);
                return false;
            }
            i += 1;
        }
        assert(self@.type_params =~= other@.type_params);
        true
    }
}

/// What an object is made of: a typed Move value, or the modules of a package.
#[derive(Debug, PartialEq, Eq)]
pub enum Data {
    Move { type_: Arc<StructTag>, contents: Arc<Vec<u8>> },
    Package { modules: Vec<(String, Arc<Vec<u8>>)> },
}

/// An object at one version.
#[derive(Debug, PartialEq, Eq)]
pub struct Object {
    pub id: ObjectID,
    pub version: SequenceNumber,
    pub digest: ObjectDigest,
    /// The transaction that created or last changed the object.
    pub previous_transaction: TransactionDigest,
    pub owner: Owner,
    pub data: Arc<Data>,
}

impl Clone for Object {
    fn clone(&self) -> (r: Self)
        ensures
            r == *self,
    {
        Object {
            id: self.id,
            version: self.version,
            digest: self.digest,
            previous_transaction: self.previous_transaction,
            owner: self.owner,
            data: self.data.clone(),
        }
    }
}

impl Object {
    pub open spec fn reference(&self) -> ObjectRef {
        (self.id, self.version, self.digest)
    }

    /// The key of the object among objects of all versions.
    pub open spec fn key(&self) -> (ObjectID, SequenceNumber) {
        (self.id, self.version)
    }

    pub open spec fn spec_is_package(&self) -> bool {
        *self.data is Package
    }

    pub fn compute_object_reference(&self) -> (r: ObjectRef)
        ensures
            r == self.reference(),
    {
        (self.id, self.version, self.digest)
    }

    #[verifier::when_used_as_spec(spec_is_package)]
    pub fn is_package(&self) -> (r: bool)
        ensures
            r == self.is_package(),
    {
        match &*self.data {
            Data::Move { .. } => false,
            Data::Package { .. } => true,
        }
    }
}

/// A copy of a list of objects.
pub fn clone_objects(objs: &Vec<Object>) -> (r: Vec<Object>)
    ensures
        r@ == objs@,
{
    let mut out: Vec<Object> = Vec::new();
    let mut i: usize = 0;
    while i < objs.len()
        invariant
            i <= objs.len(),
            out@ == objs@.take(i as int),
        decreases objs.len() - i,
    {
        out.push(objs[i].clone());
        i += 1;
        assert(objs@.take(i as int) =~= objs@.take(i - 1).push(objs@[i - 1]));
    }
    assert(objs@.take(i as int) =~= objs@);
    out
}

/// How a transaction names one of its inputs.
#[derive(Clone, Copy, Debug, PartialEq, Eq)]
pub enum InputObjectKind {
    /// A package, by identifier.
    MovePackage(ObjectID),
    /// An object that is immutable or owned, at a fixed version.
    ImmOrOwnedMoveObject(ObjectRef),
    /// A shared object, by identifier.
    SharedMoveObject {
        id: ObjectID,
        initial_shared_version: SequenceNumber,
        mutable: bool,
    },
}

/// What a transaction does, in its encoded form and as far as a replay looks into it.
#[derive(Debug, PartialEq, Eq)]
pub enum TransactionKind {
    /// The system transaction that starts an epoch.
    ChangeEpoch { epoch_start_timestamp_ms: u64, encoded: Vec<u8> },
    /// Any other transaction.
    Other { encoded: Vec<u8> },
}

/// The outcome of a transaction.
#[derive(Debug, PartialEq, Eq)]
pub struct TransactionEffects {
    /// The canonical encoding. Two outcomes are the same exactly if their encodings are.
    pub encoded: Vec<u8>,
    /// The outcome in a human readable form, over several lines.
    pub rendered: String,
    pub executed_epoch: u64,
    pub modified_at_versions: Vec<(ObjectID, SequenceNumber)>,
    pub shared_objects: Vec<ObjectRef>,
    pub dependencies: Vec<TransactionDigest>,
}

/// How a transaction pays for its execution.
#[derive(Debug, PartialEq, Eq)]
pub struct GasData {
    pub payment: Vec<ObjectRef>,
    pub budget: u64,
    pub price: u64,
}

/// A transaction as a full node reports it.
#[derive(Debug, PartialEq, Eq)]
pub struct TransactionRecord {
    pub sender: SuiAddress,
    /// The signed transaction, as it was submitted.
    pub raw_transaction: Arc<Vec<u8>>,
    pub kind: Arc<TransactionKind>,
    /// The inputs that the transaction names, or what is wrong with them.
    pub input_objects: Result<Vec<InputObjectKind>, String>,
    pub gas_data: GasData,
    pub effects: Arc<TransactionEffects>,
    /// The checkpoint that holds the transaction, once it is known.
    pub checkpoint: Option<u64>,
}

/// All that is known of a transaction before it is replayed.
#[derive(Debug, PartialEq, Eq)]
pub struct OnChainTransactionInfo {
    pub tx_digest: TransactionDigest,
    pub raw_transaction: Arc<Vec<u8>>,
    pub sender: SuiAddress,
    pub input_objects: Vec<InputObjectKind>,
    pub kind: Arc<TransactionKind>,
    pub modified_at_versions: Vec<(ObjectID, SequenceNumber)>,
    pub shared_object_refs: Vec<ObjectRef>,
    pub gas: Vec<ObjectRef>,
    pub gas_budget: u64,
    pub gas_price: u64,
    pub executed_epoch: u64,
    pub dependencies: Vec<TransactionDigest>,
    pub effects: Arc<TransactionEffects>,
    pub protocol_version: u64,
    pub epoch_start_timestamp: u64,
    pub reference_gas_price: u64,
}

/// Two identifiers are the same if both halves are.
pub proof fn law_same_identifiers_are_told(a: &ObjectID, b: &ObjectID, r: bool)
    requires
        call_ensures(same_id, (a, b), r),
    ensures
        r == (a.0 == b.0 && a.1 == b.1),
{
}

/// Two type names are the same just if they have the same address, module and name and the same
/// type arguments in the same order.
pub proof fn law_same_types_are_told(a: &StructTag, b: &StructTag, i: int, r: bool)
    requires
        call_ensures(StructTag::same_as, (a, b), r),
    ensures
        r ==> a.address == b.address && a.module@ == b.module@ && a.name@ == b.name@
            && a.type_params@.len() == b.type_params@.len(),
        r && 0 <= i < a.type_params@.len() ==> a.type_params@[i]@ == b.type_params@[i]@,
        a.address == b.address && a.module@ == b.module@ && a.name@ == b.name@
            && have_same_texts(a.type_params@, b.type_params@) ==> r,
{
    let texts = |s: String| s@;
    assert(a@.type_params == a.type_params@.map_values(texts));
    assert(b@.type_params == b.type_params@.map_values(texts));
    assert(a@.type_params.len() == a.type_params@.len());
    assert(b@.type_params.len() == b.type_params@.len());
    if r && 0 <= i < a.type_params@.len() {
        assert(a@.type_params[i] == a.type_params@[i]@);
        assert(b@.type_params[i] == b.type_params@[i]@);
    }
    if have_same_texts(a.type_params@, b.type_params@) {
        assert(a@.type_params =~= b@.type_params);
    }
}

/// Whether two lists of texts have the same texts in the same order.
pub open spec fn have_same_texts(a: Seq<String>, b: Seq<String>) -> bool {
    a.len() == b.len() && forall|i: int| 0 <= i < a.len() ==> (#[trigger] a[i])@ == b[i]@
}

/// The reference of an object is its identifier, version and digest, and a package is told by
/// what the object is made of.
pub proof fn law_objects_are_told(obj: &Object, reference: ObjectRef, is_package: bool)
    requires
        call_ensures(Object::compute_object_reference, (obj,), reference),
        call_ensures(Object::is_package, (obj,), is_package),
    ensures
        reference.0 == obj.id,
        reference.1 == obj.version,
        reference.2 == obj.digest,
        is_package == (*obj.data is Package),
{
}

/// A copy of objects has the same objects in the same order.
pub proof fn law_copies_of_objects_are_the_same(objs: &Vec<Object>, r: Vec<Object>, i: int)
    requires
        call_ensures(clone_objects, (objs,), r),
    ensures
        r@.len() == objs@.len(),
        0 <= i < objs@.len() ==> r@[i] == objs@[i],
{
}

} // verus!
