//! The schema registry.
//!
//! A schema is an immutable record: an id of 1 to 24 bytes, unique across
//! the registry, an owning account, an opaque content hash, a required
//! version of 1 to 8 bytes, up to four properties (a name of at most 24
//! bytes with a description of at most 256 bytes), and the ledger moment at
//! which it was admitted. Admission validates the fields in a fixed order,
//! refuses duplicates, then updates the primary map and the three derived
//! indices together and queues a notification.

use vstd::multiset::Multiset;
use vstd::prelude::*;

use crate::bytes::bytes_eq;
use crate::bytes::clone_bytes;
use crate::bytes::copy_bytes;
use crate::errors::RegistryError;
use crate::index::account_with_id;
use crate::index::ids_with_key;
use crate::index::AccountLog;
use crate::index::KeyedIdLog;
use crate::ledger;
use crate::ledger::AccountId;
use crate::ledger::Moment;
use crate::ledger::Origin;
use crate::ledger::RecordHash;
use crate::validate;
use crate::validate::id_check;

verus! {

/// The longest admissible schema id, in bytes.
pub const SCHEMA_ID_MAX_LENGTH: usize = validate::ID_MAX_LENGTH;

/// The longest admissible property name, in bytes.
pub const SCHEMA_NAME_MAX_LENGTH: usize = 24;

/// The longest admissible schema version, in bytes.
pub const SCHEMA_VERSION_MAX_LENGTH: usize = 8;

/// The longest admissible property description, in bytes.
pub const SCHEMA_DESC_MAX_LENGTH: usize = 256;

/// The most properties a schema may carry.
pub const SCHEMA_MAX_PROPS: usize = 4;

/// A schema id: a byte string, the registry's primary key.
pub type SchemaId = Vec<u8>;

/// A property name: a byte string.
pub type SchemaName = Vec<u8>;

/// A schema version: a byte string, stored but never interpreted.
pub type SchemaVersion = Vec<u8>;

/// A property description: a byte string.
pub type SchemaDesc = Vec<u8>;

/// A single schema property: a named field with a description.
#[derive(Clone, Debug, PartialEq, Eq)]
pub struct SchemaProperty {
    name: SchemaName,
    desc: SchemaDesc,
}

/// The abstract value of a schema property.
pub ghost struct SchemaPropertyView {
    pub name: Seq<u8>,
    pub desc: Seq<u8>,
}

impl View for SchemaProperty {
    type V = SchemaPropertyView;

    closed spec fn view(&self) -> SchemaPropertyView {
        SchemaPropertyView { name: self.name@, desc: self.desc@ }
    }
}

impl SchemaProperty {
    /// A property holding copies of `name` and `desc`.
    pub fn new(name: &[u8], desc: &[u8]) -> (p: Self)
        ensures
            p@ == (SchemaPropertyView { name: name@, desc: desc@ }),
    {
        SchemaProperty { name: copy_bytes(name), desc: copy_bytes(desc) }
    }

    /// The property's name.
    pub fn name(&self) -> (s: &[u8])
        ensures
            s@ == self@.name,
    {
        self.name.as_slice()
    }

    /// The property's description.
    pub fn desc(&self) -> (s: &[u8])
        ensures
            s@ == self@.desc,
    {
        self.desc.as_slice()
    }
}

/// The abstract value of a schema: every field as a mathematical value.
pub ghost struct SchemaView {
    pub id: Seq<u8>,
    pub owner: AccountId,
    pub hash: RecordHash,
    pub version: Seq<u8>,
    pub props: Option<Seq<SchemaPropertyView>>,
    pub registered: Moment,
}

/// The abstract value of an optional property list.
pub open spec fn props_view(props: Option<Vec<SchemaProperty>>) -> Option<Seq<SchemaPropertyView>> {
    match props {
        Some(ps) => Some(ps@.map_values(|p: SchemaProperty| p@)),
        None => None,
    }
}

/// An immutable schema record.
#[derive(Clone, Debug, PartialEq, Eq)]
pub struct Schema {
    pub id: SchemaId,
    pub owner: AccountId,
    pub hash: RecordHash,
    pub version: SchemaVersion,
    pub props: Option<Vec<SchemaProperty>>,
    pub registered: Moment,
}

impl View for Schema {
    type V = SchemaView;

    open spec fn view(&self) -> SchemaView {
        SchemaView {
            id: self.id@,
            owner: self.owner,
            hash: self.hash,
            version: self.version@,
            props: props_view(self.props),
            registered: self.registered,
        }
    }
}

/// Assembles a schema field by field. The builder never validates: it is
/// pure assembly, called only after every validator has passed.
pub struct SchemaBuilder {
    id: SchemaId,
    owner: AccountId,
    hash: RecordHash,
    version: SchemaVersion,
    props: Option<Vec<SchemaProperty>>,
    registered: Moment,
}

impl View for SchemaBuilder {
    type V = SchemaView;

    closed spec fn view(&self) -> SchemaView {
        SchemaView {
            id: self.id@,
            owner: self.owner,
            hash: self.hash,
            version: self.version@,
            props: props_view(self.props),
            registered: self.registered,
        }
    }
}

impl Default for SchemaBuilder {
    /// A builder with every field unset: empty id and version, the zero
    /// account, the zero hash, no properties, the zero moment.
    fn default() -> (b: Self)
        ensures
            b@ == (SchemaView {
                id: Seq::<u8>::empty(),
                owner: 0,
                hash: 0,
                version: Seq::<u8>::empty(),
                props: None,
                registered: 0,
            }),
    {
        let b = SchemaBuilder {
            id: Vec::new(),
            owner: 0,
            hash: 0,
            version: Vec::new(),
            props: None,
            registered: 0,
        };
        proof {
            assert(b@.id =~= Seq::<u8>::empty());
            assert(b@.version =~= Seq::<u8>::empty());
        }
        b
    }
}

impl SchemaBuilder {
    /// Sets the record id.
    pub fn identified_by(self, id: SchemaId) -> (b: Self)
        ensures
            b@ == (SchemaView { id: id@, ..self@ }),
    {
        SchemaBuilder { id, ..self }
    }

    /// Sets the owning account.
    pub fn owned_by(self, owner: AccountId) -> (b: Self)
        ensures
            b@ == (SchemaView { owner, ..self@ }),
    {
        SchemaBuilder { owner, ..self }
    }

    /// Sets the content hash.
    pub fn schema_hash(self, hash: RecordHash) -> (b: Self)
        ensures
            b@ == (SchemaView { hash, ..self@ }),
    {
        SchemaBuilder { hash, ..self }
    }

    /// Sets the version.
    pub fn schema_version(self, version: SchemaVersion) -> (b: Self)
        ensures
            b@ == (SchemaView { version: version@, ..self@ }),
    {
        SchemaBuilder { version, ..self }
    }

    /// Sets the property list.
    pub fn with_props(self, props: Option<Vec<SchemaProperty>>) -> (b: Self)
        ensures
            b@ == (SchemaView { props: props_view(props), ..self@ }),
    {
        SchemaBuilder { props, ..self }
    }

    /// Sets the admission moment.
    pub fn registered_on(self, registered: Moment) -> (b: Self)
        ensures
            b@ == (SchemaView { registered, ..self@ }),
    {
        SchemaBuilder { registered, ..self }
    }

    /// The assembled record.
    pub fn build(self) -> (s: Schema)
        ensures
            s@ == self@,
    {
        Schema {
            id: self.id,
            owner: self.owner,
            hash: self.hash,
            version: self.version,
            props: self.props,
            registered: self.registered,
        }
    }
}

/// The verdict on a schema version: an empty version is missing, an
/// over-long one is refused, anything else passes.
pub open spec fn version_check(version: Seq<u8>) -> Result<(), RegistryError> {
    if version.len() == 0 {
        Err(RegistryError::VersionMissing)
    } else if version.len() > SCHEMA_VERSION_MAX_LENGTH {
        Err(RegistryError::InvalidVersion)
    } else {
        Ok(())
    }
}

/// The verdict on a property list, property by property in order: a list
/// over the count bound is refused whole; otherwise the first over-long
/// field is refused, name before description.
pub open spec fn schema_props_check(props: Option<Seq<SchemaPropertyView>>) -> Result<
    (),
    RegistryError,
> {
    match props {
        Some(ps) => if ps.len() > SCHEMA_MAX_PROPS {
            Err(RegistryError::TooManyProperties)
        } else {
            prop_fields_check(ps)
        },
        None => Ok(()),
    }
}

/// The verdict on the fields of a property list, in order.
pub open spec fn prop_fields_check(ps: Seq<SchemaPropertyView>) -> Result<(), RegistryError>
    decreases ps.len(),
{
    if ps.len() == 0 {
        Ok(())
    } else if ps[0].name.len() > SCHEMA_NAME_MAX_LENGTH {
        Err(RegistryError::InvalidName)
    } else if ps[0].desc.len() > SCHEMA_DESC_MAX_LENGTH {
        Err(RegistryError::InvalidDescription)
    } else {
        prop_fields_check(ps.drop_first())
    }
}

/// Whether a record meets every per-record bound the validators enforce.
pub open spec fn valid_record(s: SchemaView) -> bool {
    id_check(s.id) is Ok && version_check(s.version) is Ok && schema_props_check(s.props) is Ok
}

/// The registered record with the given id: the admission log, searched
/// from the most recent record back.
pub open spec fn lookup_record(rs: Seq<SchemaView>, id: Seq<u8>) -> Option<SchemaView>
    decreases rs.len(),
{
    if rs.len() == 0 {
        None
    } else if rs.last().id == id {
        Some(rs.last())
    } else {
        lookup_record(rs.drop_last(), id)
    }
}

/// Whether no two records in the log share an id.
pub open spec fn unique_ids(rs: Seq<SchemaView>) -> bool {
    forall|i: int, j: int|
        #![trigger rs[i], rs[j]]
        0 <= i < j < rs.len() ==> rs[i].id != rs[j].id
}

/// The admission log projected to (owner, id) pairs.
pub open spec fn owner_pairs(rs: Seq<SchemaView>) -> Seq<(u64, Seq<u8>)> {
    rs.map_values(|s: SchemaView| (s.owner, s.id))
}

/// The admission log projected to (id, owner) pairs.
pub open spec fn owner_of_pairs(rs: Seq<SchemaView>) -> Seq<(Seq<u8>, u64)> {
    rs.map_values(|s: SchemaView| (s.id, s.owner))
}

/// The admission log projected to (hash, id) pairs.
pub open spec fn hash_pairs(rs: Seq<SchemaView>) -> Seq<(u64, Seq<u8>)> {
    rs.map_values(|s: SchemaView| (s.hash, s.id))
}

/// A notification queued on a successful admission, for the ledger's
/// event sink.
#[derive(Clone, Debug, PartialEq, Eq)]
pub struct SchemaEvent {
    pub signer: AccountId,
    pub id: SchemaId,
    pub version: SchemaVersion,
    pub hash: RecordHash,
}

/// The abstract value of a queued notification.
pub ghost struct SchemaEventView {
    pub signer: AccountId,
    pub id: Seq<u8>,
    pub version: Seq<u8>,
    pub hash: RecordHash,
}

impl View for SchemaEvent {
    type V = SchemaEventView;

    open spec fn view(&self) -> SchemaEventView {
        SchemaEventView {
            signer: self.signer,
            id: self.id@,
            version: self.version@,
            hash: self.hash,
        }
    }
}

/// The abstract state of the schema registry: the admission log and the
/// queued notifications. Every index is a function of the log.
pub ghost struct SchemaRegistryView {
    pub records: Seq<SchemaView>,
    pub events: Seq<SchemaEventView>,
}

impl SchemaRegistryView {
    /// The record registered under `id`, if any.
    pub open spec fn by_id(self, id: Seq<u8>) -> Option<SchemaView> {
        lookup_record(self.records, id)
    }

    /// Whether a record is registered under `id`.
    pub open spec fn contains_id(self, id: Seq<u8>) -> bool {
        self.by_id(id) is Some
    }

    /// The ids registered for `owner`, in registration order.
    pub open spec fn by_owner(self, owner: AccountId) -> Seq<Seq<u8>> {
        ids_with_key(owner_pairs(self.records), owner)
    }

    /// The owning account of the record registered under `id`, if any.
    pub open spec fn owner_of(self, id: Seq<u8>) -> Option<AccountId> {
        account_with_id(owner_of_pairs(self.records), id)
    }

    /// The ids registered under `hash`, in registration order.
    pub open spec fn by_hash(self, hash: RecordHash) -> Seq<Seq<u8>> {
        ids_with_key(hash_pairs(self.records), hash)
    }

    /// The moment of the most recent admission, or zero before any.
    pub open spec fn latest_moment(self) -> Moment {
        if self.records.len() == 0 {
            0
        } else {
            self.records.last().registered
        }
    }

    /// The registry's structural invariant: ids are unique, every record
    /// meets the validators' bounds, and admission moments never decrease.
    pub open spec fn inv(self) -> bool {
        &&& unique_ids(self.records)
        &&& (forall|i: int| 0 <= i < self.records.len() ==> valid_record(#[trigger] self.records[i]))
        &&& (forall|i: int, j: int|
            #![trigger self.records[i], self.records[j]]
            0 <= i <= j < self.records.len() ==> self.records[i].registered
                <= self.records[j].registered)
    }
}

/// The verdict on a registration, checked in the fixed order the engine
/// uses: capability, signer, id, version, properties, existence. The
/// first violated constraint decides the error.
pub open spec fn register_check(
    v: SchemaRegistryView,
    authorized: bool,
    origin: Origin,
    id: Seq<u8>,
    version: Seq<u8>,
    props: Option<Seq<SchemaPropertyView>>,
) -> Result<(), RegistryError> {
    if !authorized {
        Err(RegistryError::Unauthorized)
    } else if !origin.is_signed() {
        Err(RegistryError::NoSigner)
    } else if id_check(id) is Err {
        id_check(id)
    } else if version_check(version) is Err {
        version_check(version)
    } else if schema_props_check(props) is Err {
        schema_props_check(props)
    } else if v.contains_id(id) {
        Err(RegistryError::IdAlreadyExists)
    } else {
        Ok(())
    }
}

/// The record an admissible registration stores.
pub open spec fn built_schema(
    id: Seq<u8>,
    owner: AccountId,
    hash: RecordHash,
    version: Seq<u8>,
    props: Option<Seq<SchemaPropertyView>>,
    now: Moment,
) -> SchemaView {
    SchemaView { id, owner, hash, version, props, registered: now }
}

/// The registry state after a registration: unchanged when the check
/// refuses it, one appended record and one queued notification otherwise.
pub open spec fn register_next(
    v: SchemaRegistryView,
    authorized: bool,
    origin: Origin,
    id: Seq<u8>,
    owner: AccountId,
    hash: RecordHash,
    version: Seq<u8>,
    props: Option<Seq<SchemaPropertyView>>,
    now: Moment,
) -> SchemaRegistryView {
    if register_check(v, authorized, origin, id, version, props) is Ok {
        SchemaRegistryView {
            records: v.records.push(built_schema(id, owner, hash, version, props, now)),
            events: v.events.push(
                SchemaEventView { signer: origin.signer(), id, version, hash },
            ),
        }
    } else {
        v
    }
}

/// What a registration returns: the id as confirmation, or the first
/// violated constraint.
pub open spec fn register_outcome(
    v: SchemaRegistryView,
    authorized: bool,
    origin: Origin,
    id: Seq<u8>,
    version: Seq<u8>,
    props: Option<Seq<SchemaPropertyView>>,
) -> Result<Seq<u8>, RegistryError> {
    match register_check(v, authorized, origin, id, version, props) {
        Ok(()) => Ok(id),
        Err(e) => Err(e),
    }
}

/// The schema registry: the admission log, the three derived indices, and
/// the queued notifications.
pub struct SchemaRegistry {
    records: Vec<Schema>,
    owner_index: KeyedIdLog,
    owner_table: AccountLog,
    hash_index: KeyedIdLog,
    events: Vec<SchemaEvent>,
}

impl View for SchemaRegistry {
    type V = SchemaRegistryView;

    closed spec fn view(&self) -> SchemaRegistryView {
        SchemaRegistryView {
            records: self.records@.map_values(|s: Schema| s@),
            events: self.events@.map_values(|e: SchemaEvent| e@),
        }
    }
}

impl SchemaRegistry {
    /// The registry's well-formedness: the abstract invariant holds and
    /// each index equals the corresponding projection of the admission log.
    pub closed spec fn wf(self) -> bool {
        &&& self@.inv()
        &&& self.owner_index.log() == owner_pairs(self@.records)
        &&& self.owner_table.log() == owner_of_pairs(self@.records)
        &&& self.hash_index.log() == hash_pairs(self@.records)
    }

    /// An empty registry.
    pub fn new() -> (registry: Self)
        ensures
            registry.wf(),
            registry@.records == Seq::<SchemaView>::empty(),
            registry@.events == Seq::<SchemaEventView>::empty(),
    {
        let registry = SchemaRegistry {
            records: Vec::new(),
            owner_index: KeyedIdLog::new(),
            owner_table: AccountLog::new(),
            hash_index: KeyedIdLog::new(),
            events: Vec::new(),
        };
        proof {
            assert(registry@.records =~= Seq::<SchemaView>::empty());
            assert(registry@.events =~= Seq::<SchemaEventView>::empty());
            assert(owner_pairs(registry@.records) =~= Seq::<(u64, Seq<u8>)>::empty());
            assert(owner_of_pairs(registry@.records) =~= Seq::<(Seq<u8>, u64)>::empty());
            assert(hash_pairs(registry@.records) =~= Seq::<(u64, Seq<u8>)>::empty());
        }
        registry
    }

    /// Checks a schema id against the shared id bounds.
    pub fn validate_schema_id(id: &[u8]) -> (r: Result<(), RegistryError>)
        ensures
            r == id_check(id@),
    {
        validate::validate_record_id(id)
    }

    /// Checks a schema version against its bounds.
    pub fn validate_schema_version(version: &[u8]) -> (r: Result<(), RegistryError>)
        ensures
            r == version_check(version@),
    {
        if version.len() == 0 {
            Err(RegistryError::VersionMissing)
        } else if version.len() > SCHEMA_VERSION_MAX_LENGTH {
            Err(RegistryError::InvalidVersion)
        } else {
            Ok(())
        }
    }

    /// Checks a property list: the count bound first, then each name and
    /// description in order.
    pub fn validate_schema_props(props: &Option<Vec<SchemaProperty>>) -> (r: Result<
        (),
        RegistryError,
    >)
        ensures
            r == schema_props_check(props_view(*props)),
    {
        match props {
            Some(ps) => {
                if ps.len() > SCHEMA_MAX_PROPS {
                    return Err(RegistryError::TooManyProperties);
                }
                let ghost fields = ps@.map_values(|p: SchemaProperty| p@);
                proof {
                    assert(fields.skip(0) =~= fields);
                }
                let n = ps.len();
                let mut i: usize = 0;
                while i < n
                    invariant
                        i <= n,
                        n == ps@.len(),
                        fields == ps@.map_values(|p: SchemaProperty| p@),
                        fields.len() <= SCHEMA_MAX_PROPS,
                        props_view(*props) == Some::<Seq<SchemaPropertyView>>(fields),
                        prop_fields_check(fields) == prop_fields_check(fields.skip(i as int)),
                    decreases n - i,
                {
                    proof {
                        assert(fields.skip(i as int)[0] == fields[i as int]);
                        assert(fields[i as int] == ps@[i as int]@);
                        assert(fields.skip(i as int).len() == n - i);
                    }
                    if ps[i].name().len() > SCHEMA_NAME_MAX_LENGTH {
                        return Err(RegistryError::InvalidName);
                    }
                    if ps[i].desc().len() > SCHEMA_DESC_MAX_LENGTH {
                        return Err(RegistryError::InvalidDescription);
                    }
                    proof {
                        assert(fields.skip(i as int).drop_first() =~= fields.skip(i as int + 1));
                    }
                    i += 1;
                }
                proof {
                    assert(fields.skip(n as int) =~= Seq::<SchemaPropertyView>::empty());
                }
                Ok(())
            },
            None => Ok(()),
        }
    }

    /// Checks that no record is registered under `id` yet.
    pub fn validate_new_schema(&self, id: &[u8]) -> (r: Result<(), RegistryError>)
        ensures
            r == (if self@.contains_id(id@) {
                Err::<(), RegistryError>(RegistryError::IdAlreadyExists)
            } else {
                Ok::<(), RegistryError>(())
            }),
    {
        match self.schema_by_id(id) {
            Some(_) => Err(RegistryError::IdAlreadyExists),
            None => Ok(()),
        }
    }

    /// The record registered under `id`, if any.
    pub fn schema_by_id(&self, id: &[u8]) -> (r: Option<&Schema>)
        ensures
            match r {
                Some(s) => self@.by_id(id@) == Some(s@),
                None => self@.by_id(id@) is None,
            },
    {
        let ghost rs = self@.records;
        let mut i: usize = self.records.len();
        proof {
            assert(rs.take(i as int) =~= rs);
        }
        while i > 0
            invariant
                i <= self.records.len(),
                rs == self@.records,
                lookup_record(rs, id@) == lookup_record(rs.take(i as int), id@),
            decreases i,
        {
            i -= 1;
            proof {
                assert(rs.take(i as int + 1).drop_last() =~= rs.take(i as int));
                assert(rs.take(i as int + 1).last() == rs[i as int]);
            }
            if bytes_eq(self.records[i].id.as_slice(), id) {
                return Some(&self.records[i]);
            }
        }
        proof {
            assert(rs.take(0) =~= Seq::<SchemaView>::empty());
        }
        None
    }

    /// The ids registered for `org`, in registration order.
    pub fn schemas_of_org(&self, org: AccountId) -> (ids: Vec<SchemaId>)
        requires
            self.wf(),
        ensures
            ids.deep_view() == self@.by_owner(org),
    {
        self.owner_index.ids_for_key(org)
    }

    /// The owning account of the record registered under `id`, if any.
    pub fn owner_of_schema(&self, id: &[u8]) -> (r: Option<AccountId>)
        requires
            self.wf(),
        ensures
            r == self@.owner_of(id@),
    {
        self.owner_table.lookup(id)
    }

    /// The ids registered under `hash`, in registration order.
    pub fn schema_by_hash(&self, hash: RecordHash) -> (ids: Vec<SchemaId>)
        requires
            self.wf(),
        ensures
            ids.deep_view() == self@.by_hash(hash),
    {
        self.hash_index.ids_for_key(hash)
    }

    /// The notifications queued so far, in admission order.
    pub fn events(&self) -> (events: &Vec<SchemaEvent>)
        ensures
            events@.map_values(|e: SchemaEvent| e@) == self@.events,
    {
        &self.events
    }

    /// How many records are registered.
    pub fn record_count(&self) -> (n: usize)
        ensures
            n == self@.records.len(),
    {
        self.records.len()
    }

    /// The moment of the most recent admission, or zero before any. The
    /// ledger's clock never runs behind this value.
    pub fn last_registered_at(&self) -> (m: Moment)
        ensures
            m == self@.latest_moment(),
    {
        let n = self.records.len();
        if n == 0 {
            0
        } else {
            self.records[n - 1].registered
        }
    }

    /// Registers a schema: checks the capability verdict, the signer, the
    /// id, the version, the properties and the id's freshness, in that
    /// order; on success stores the record, updates the three indices and
    /// queues a notification, returning the id as confirmation. A refused
    /// call leaves the registry exactly as it was.
    pub fn register_schema(
        &mut self,
        authorized: bool,
        origin: Origin,
        id: SchemaId,
        owner: AccountId,
        hash: RecordHash,
        version: SchemaVersion,
        props: Option<Vec<SchemaProperty>>,
        now: Moment,
    ) -> (r: Result<SchemaId, RegistryError>)
        requires
            old(self).wf(),
            now >= old(self)@.latest_moment(),
        ensures
            final(self).wf(),
            final(self)@ == register_next(
                old(self)@,
                authorized,
                origin,
                id@,
                owner,
                hash,
                version@,
                props_view(props),
                now,
            ),
            (match r {
                Ok(rid) => register_outcome(
                    old(self)@,
                    authorized,
                    origin,
                    id@,
                    version@,
                    props_view(props),
                ) == Ok::<Seq<u8>, RegistryError>(rid@),
                Err(e) => register_outcome(
                    old(self)@,
                    authorized,
                    origin,
                    id@,
                    version@,
                    props_view(props),
                ) == Err::<Seq<u8>, RegistryError>(e),
            }),
            register_check(old(self)@, authorized, origin, id@, version@, props_view(props))
                is Err ==> *final(self) == *old(self),
    {
        if let Err(e) = ledger::ensure_authorized(authorized) {
            return Err(e);
        }
        let who = match ledger::ensure_signed(origin) {
            Ok(account) => account,
            Err(e) => {
                return Err(e);
            },
        };
        if let Err(e) = Self::validate_schema_id(id.as_slice()) {
            return Err(e);
        }
        if let Err(e) = Self::validate_schema_version(version.as_slice()) {
            return Err(e);
        }
        if let Err(e) = Self::validate_schema_props(&props) {
            return Err(e);
        }
        if let Err(e) = self.validate_new_schema(id.as_slice()) {
            return Err(e);
        }
        let ghost prior = self@;
        let record = SchemaBuilder::default()
            .identified_by(clone_bytes(&id))
            .owned_by(owner)
            .schema_hash(hash)
            .schema_version(clone_bytes(&version))
            .registered_on(now)
            .with_props(props)
            .build();
        let ghost built = record@;
        self.records.push(record);
        self.owner_index.append(owner, clone_bytes(&id));
        self.owner_table.insert(clone_bytes(&id), owner);
        self.hash_index.append(hash, clone_bytes(&id));
        self.events.push(
            SchemaEvent { signer: who, id: clone_bytes(&id), version, hash },
        );
        proof {
            assert(self@.records =~= prior.records.push(built));
            assert(self@.events =~= prior.events.push(
                SchemaEventView { signer: origin.signer(), id: id@, version: built.version, hash },
            ));
            assert(owner_pairs(self@.records) =~= owner_pairs(prior.records).push((owner, id@)));
            assert(owner_of_pairs(self@.records) =~= owner_of_pairs(prior.records).push(
                (id@, owner),
            ));
            assert(hash_pairs(self@.records) =~= hash_pairs(prior.records).push((hash, id@)));
            lemma_lookup_absent(prior.records, id@);
            assert forall|i: int, j: int|
                #![trigger self@.records[i], self@.records[j]]
                0 <= i < j < self@.records.len() implies self@.records[i].id
                != self@.records[j].id by {
                if j == prior.records.len() {
                    assert(self@.records[i] == prior.records[i]);
                }
            }
            assert forall|i: int, j: int|
                #![trigger self@.records[i], self@.records[j]]
                0 <= i <= j < self@.records.len() implies self@.records[i].registered
                <= self@.records[j].registered by {
                if j == prior.records.len() && i < j {
                    assert(prior.records[i].registered <= prior.records[prior.records.len()
                        - 1].registered);
                }
            }
        }
        Ok(id)
    }
}

/// Searching the admission log for an id comes up empty exactly when no
/// record carries that id.
pub proof fn lemma_lookup_absent(rs: Seq<SchemaView>, id: Seq<u8>)
    ensures
        (lookup_record(rs, id) is None) <==> (forall|i: int|
            0 <= i < rs.len() ==> (#[trigger] rs[i]).id != id),
    decreases rs.len(),
{
    if rs.len() > 0 {
        let prefix = rs.drop_last();
        lemma_lookup_absent(prefix, id);
        assert(forall|i: int| 0 <= i < prefix.len() ==> prefix[i] == rs[i]);
        if rs.last().id == id {
            assert(rs[rs.len() - 1].id == id);
        }
    }
}

/// A record found under an id carries that id and sits in the log.
pub proof fn lemma_lookup_is_registered(rs: Seq<SchemaView>, id: Seq<u8>)
    requires
        lookup_record(rs, id) is Some,
    ensures
        exists|i: int|
            0 <= i < rs.len() && Some(#[trigger] rs[i]) == lookup_record(rs, id) && rs[i].id == id,
    decreases rs.len(),
{
    if rs.last().id == id {
        assert(Some(rs[rs.len() - 1]) == lookup_record(rs, id));
    } else {
        let prefix = rs.drop_last();
        lemma_lookup_is_registered(prefix, id);
        let i = choose|i: int|
            0 <= i < prefix.len() && Some(#[trigger] prefix[i]) == lookup_record(prefix, id)
                && prefix[i].id == id;
        assert(Some(rs[i]) == lookup_record(rs, id));
    }
}

/// Every id the owner index lists is a registered id.
pub proof fn lemma_owner_index_ids_are_registered(rs: Seq<SchemaView>, o: AccountId, x: Seq<u8>)
    requires
        ids_with_key(owner_pairs(rs), o).contains(x),
    ensures
        lookup_record(rs, x) is Some,
    decreases rs.len(),
{
    assert(owner_pairs(rs).len() == rs.len());
    if rs.len() > 0 {
        let pairs = owner_pairs(rs);
        let rest = ids_with_key(pairs.drop_last(), o);
        assert(pairs.drop_last() =~= owner_pairs(rs.drop_last()));
        if pairs.last().0 == o && x == pairs.last().1 {
            assert(rs.last().id == x);
        } else {
            if pairs.last().0 == o {
                assert(rest.push(pairs.last().1).contains(x));
                assert(exists|k: int|
                    0 <= k < rest.len() + 1 && rest.push(pairs.last().1)[k] == x);
                let k = choose|k: int|
                    0 <= k < rest.len() + 1 && rest.push(pairs.last().1)[k] == x;
                assert(rest[k] == x);
            }
            lemma_owner_index_ids_are_registered(rs.drop_last(), o, x);
        }
    }
}

/// Every id the hash index lists is a registered id.
pub proof fn lemma_hash_index_ids_are_registered(rs: Seq<SchemaView>, h: RecordHash, x: Seq<u8>)
    requires
        ids_with_key(hash_pairs(rs), h).contains(x),
    ensures
        lookup_record(rs, x) is Some,
    decreases rs.len(),
{
    assert(hash_pairs(rs).len() == rs.len());
    if rs.len() > 0 {
        let pairs = hash_pairs(rs);
        let rest = ids_with_key(pairs.drop_last(), h);
        assert(pairs.drop_last() =~= hash_pairs(rs.drop_last()));
        if pairs.last().0 == h && x == pairs.last().1 {
            assert(rs.last().id == x);
        } else {
            if pairs.last().0 == h {
                assert(rest.push(pairs.last().1).contains(x));
                assert(exists|k: int|
                    0 <= k < rest.len() + 1 && rest.push(pairs.last().1)[k] == x);
                let k = choose|k: int|
                    0 <= k < rest.len() + 1 && rest.push(pairs.last().1)[k] == x;
                assert(rest[k] == x);
            }
            lemma_hash_index_ids_are_registered(rs.drop_last(), h, x);
        }
    }
}

/// Law: an authorized, signed registration of a well-formed version and
/// property list under an id that is already registered is refused with
/// `IdAlreadyExists`, whatever its other fields hold. Together with the
/// engine's contract, the refusal leaves every index byte for byte as it
/// was.
pub proof fn lemma_existing_id_rejected(
    v: SchemaRegistryView,
    authorized: bool,
    origin: Origin,
    id: Seq<u8>,
    version: Seq<u8>,
    props: Option<Seq<SchemaPropertyView>>,
)
    requires
        v.inv(),
        authorized,
        origin.is_signed(),
        version_check(version) is Ok,
        schema_props_check(props) is Ok,
        v.contains_id(id),
    ensures
        register_check(v, authorized, origin, id, version, props) == Err::<(), RegistryError>(
            RegistryError::IdAlreadyExists,
        ),
{
    lemma_lookup_is_registered(v.records, id);
    let i = choose|i: int|
        0 <= i < v.records.len() && Some(#[trigger] v.records[i]) == lookup_record(v.records, id)
            && v.records[i].id == id;
    assert(valid_record(v.records[i]));
}

/// Law: an authorized, signed registration with an empty id is refused
/// with `IdMissing` before anything else is looked at; the refusal leaves
/// every index untouched.
pub proof fn lemma_empty_id_rejected(
    v: SchemaRegistryView,
    authorized: bool,
    origin: Origin,
    id: Seq<u8>,
    version: Seq<u8>,
    props: Option<Seq<SchemaPropertyView>>,
)
    requires
        authorized,
        origin.is_signed(),
        id.len() == 0,
    ensures
        register_check(v, authorized, origin, id, version, props) == Err::<(), RegistryError>(
            RegistryError::IdMissing,
        ),
{
}

/// Law: an authorized, signed registration with an id over the length
/// bound is refused with `IdTooLong`.
pub proof fn lemma_long_id_rejected(
    v: SchemaRegistryView,
    authorized: bool,
    origin: Origin,
    id: Seq<u8>,
    version: Seq<u8>,
    props: Option<Seq<SchemaPropertyView>>,
)
    requires
        authorized,
        origin.is_signed(),
        id.len() > SCHEMA_ID_MAX_LENGTH,
    ensures
        register_check(v, authorized, origin, id, version, props) == Err::<(), RegistryError>(
            RegistryError::IdTooLong,
        ),
{
}

/// Law: an authorized, signed registration with a valid id and version
/// but more properties than the kind admits is refused with
/// `TooManyProperties`, even where every property field is itself within
/// bounds.
pub proof fn lemma_too_many_props_rejected(
    v: SchemaRegistryView,
    authorized: bool,
    origin: Origin,
    id: Seq<u8>,
    version: Seq<u8>,
    props: Seq<SchemaPropertyView>,
)
    requires
        authorized,
        origin.is_signed(),
        id_check(id) is Ok,
        version_check(version) is Ok,
        props.len() > SCHEMA_MAX_PROPS,
    ensures
        register_check(v, authorized, origin, id, version, Some(props)) == Err::<(
        ), RegistryError>(RegistryError::TooManyProperties),
{
}

/// Law: a refused registration changes nothing, so repeating it against
/// the resulting state is refused with the same error and again changes
/// nothing.
pub proof fn lemma_failure_idempotent(
    v: SchemaRegistryView,
    authorized: bool,
    origin: Origin,
    id: Seq<u8>,
    owner: AccountId,
    hash: RecordHash,
    version: Seq<u8>,
    props: Option<Seq<SchemaPropertyView>>,
    now: Moment,
    e: RegistryError,
)
    requires
        register_check(v, authorized, origin, id, version, props) == Err::<(), RegistryError>(e),
    ensures
        register_next(v, authorized, origin, id, owner, hash, version, props, now) == v,
        register_check(
            register_next(v, authorized, origin, id, owner, hash, version, props, now),
            authorized,
            origin,
            id,
            version,
            props,
        ) == Err::<(), RegistryError>(e),
        register_outcome(v, authorized, origin, id, version, props) == Err::<
            Seq<u8>,
            RegistryError,
        >(e),
{
}

/// Invariant: the owner table always names the owner of the record
/// registered under an id.
pub proof fn lemma_owner_table_agrees(rs: Seq<SchemaView>, id: Seq<u8>)
    requires
        lookup_record(rs, id) is Some,
    ensures
        account_with_id(owner_of_pairs(rs), id) == Some(lookup_record(rs, id).unwrap().owner),
    decreases rs.len(),
{
    assert(owner_of_pairs(rs).len() == rs.len());
    if rs.last().id == id {
    } else {
        assert(owner_of_pairs(rs).drop_last() =~= owner_of_pairs(rs.drop_last()));
        lemma_owner_table_agrees(rs.drop_last(), id);
    }
}

/// Invariant: the owner index lists a registered id exactly once, under
/// its record's owner, and an unregistered id not at all.
pub proof fn lemma_owner_index_counts(rs: Seq<SchemaView>, o: AccountId, id: Seq<u8>)
    requires
        unique_ids(rs),
    ensures
        ids_with_key(owner_pairs(rs), o).to_multiset().count(id) == (match lookup_record(rs, id) {
            Some(s) => if s.owner == o {
                1int
            } else {
                0
            },
            None => 0,
        }),
    decreases rs.len(),
{
    broadcast use vstd::seq_lib::group_to_multiset_ensures;

    assert(owner_pairs(rs).len() == rs.len());
    if rs.len() == 0 {
        assert(ids_with_key(owner_pairs(rs), o) =~= Seq::<Seq<u8>>::empty());
        assert(Seq::<Seq<u8>>::empty().to_multiset() =~= Multiset::<Seq<u8>>::empty());
    } else {
        let prefix = rs.drop_last();
        assert(forall|i: int| 0 <= i < prefix.len() ==> prefix[i] == rs[i]);
        assert(owner_pairs(rs).drop_last() =~= owner_pairs(prefix));
        let rest = ids_with_key(owner_pairs(prefix), o);
        lemma_owner_index_counts(prefix, o, id);
        if rs.last().id == id {
            lemma_lookup_absent(prefix, id);
            assert(forall|i: int| 0 <= i < prefix.len() ==> (#[trigger] prefix[i]).id != id);
            assert(lookup_record(prefix, id) is None);
            assert(rest.to_multiset().count(id) == 0);
            if rs.last().owner == o {
                assert(rest.push(id).to_multiset() =~= rest.to_multiset().insert(id));
            }
        } else {
            if rs.last().owner == o {
                assert(rest.push(rs.last().id).to_multiset() =~= rest.to_multiset().insert(
                    rs.last().id,
                ));
            }
        }
    }
}

/// Invariant: the hash index lists a registered id exactly once, under
/// its record's hash, and an unregistered id not at all.
pub proof fn lemma_hash_index_counts(rs: Seq<SchemaView>, h: RecordHash, id: Seq<u8>)
    requires
        unique_ids(rs),
    ensures
        ids_with_key(hash_pairs(rs), h).to_multiset().count(id) == (match lookup_record(rs, id) {
            Some(s) => if s.hash == h {
                1int
            } else {
                0
            },
            None => 0,
        }),
    decreases rs.len(),
{
    broadcast use vstd::seq_lib::group_to_multiset_ensures;

    assert(hash_pairs(rs).len() == rs.len());
    if rs.len() == 0 {
        assert(ids_with_key(hash_pairs(rs), h) =~= Seq::<Seq<u8>>::empty());
        assert(Seq::<Seq<u8>>::empty().to_multiset() =~= Multiset::<Seq<u8>>::empty());
    } else {
        let prefix = rs.drop_last();
        assert(forall|i: int| 0 <= i < prefix.len() ==> prefix[i] == rs[i]);
        assert(hash_pairs(rs).drop_last() =~= hash_pairs(prefix));
        let rest = ids_with_key(hash_pairs(prefix), h);
        lemma_hash_index_counts(prefix, h, id);
        if rs.last().id == id {
            lemma_lookup_absent(prefix, id);
            assert(forall|i: int| 0 <= i < prefix.len() ==> (#[trigger] prefix[i]).id != id);
            assert(lookup_record(prefix, id) is None);
            assert(rest.to_multiset().count(id) == 0);
            if rs.last().hash == h {
                assert(rest.push(id).to_multiset() =~= rest.to_multiset().insert(id));
            }
        } else {
            if rs.last().hash == h {
                assert(rest.push(rs.last().id).to_multiset() =~= rest.to_multiset().insert(
                    rs.last().id,
                ));
            }
        }
    }
}

/// Invariant: every registered record is indexed consistently — its
/// owner's bucket and its hash's bucket list its id exactly once, every
/// other bucket not at all, and the owner table names its owner.
pub proof fn lemma_indices_consistent(v: SchemaRegistryView, id: Seq<u8>)
    requires
        v.inv(),
        v.contains_id(id),
    ensures
        ({
            let s = v.by_id(id).unwrap();
            &&& v.owner_of(id) == Some(s.owner)
            &&& v.by_owner(s.owner).to_multiset().count(id) == 1
            &&& (forall|o: AccountId|
                o != s.owner ==> (#[trigger] v.by_owner(o)).to_multiset().count(id) == 0)
            &&& v.by_hash(s.hash).to_multiset().count(id) == 1
            &&& (forall|h: RecordHash|
                h != s.hash ==> (#[trigger] v.by_hash(h)).to_multiset().count(id) == 0)
        }),
{
    let s = v.by_id(id).unwrap();
    lemma_owner_table_agrees(v.records, id);
    lemma_owner_index_counts(v.records, s.owner, id);
    assert forall|o: AccountId| o != s.owner implies (#[trigger] v.by_owner(
        o,
    )).to_multiset().count(id) == 0 by {
        lemma_owner_index_counts(v.records, o, id);
    }
    lemma_hash_index_counts(v.records, s.hash, id);
    assert forall|h: RecordHash| h != s.hash implies (#[trigger] v.by_hash(
        h,
    )).to_multiset().count(id) == 0 by {
        lemma_hash_index_counts(v.records, h, id);
    }
}

/// Law: an admissible registration stores exactly the built record under
/// its id, appends the id once to the owner and hash indices — which did
/// not list it before — records its owner, and touches no other key of
/// any index.
pub proof fn lemma_admission_updates_indices(
    v: SchemaRegistryView,
    authorized: bool,
    origin: Origin,
    id: Seq<u8>,
    owner: AccountId,
    hash: RecordHash,
    version: Seq<u8>,
    props: Option<Seq<SchemaPropertyView>>,
    now: Moment,
)
    requires
        register_check(v, authorized, origin, id, version, props) is Ok,
    ensures
        ({
            let next = register_next(v, authorized, origin, id, owner, hash, version, props, now);
            &&& next.by_id(id) == Some(built_schema(id, owner, hash, version, props, now))
            &&& (forall|other: Seq<u8>|
                other != id ==> #[trigger] next.by_id(other) == v.by_id(other))
            &&& next.by_owner(owner) == v.by_owner(owner).push(id)
            &&& !v.by_owner(owner).contains(id)
            &&& (forall|o: AccountId| o != owner ==> #[trigger] next.by_owner(o) == v.by_owner(o))
            &&& next.owner_of(id) == Some(owner)
            &&& (forall|other: Seq<u8>|
                other != id ==> #[trigger] next.owner_of(other) == v.owner_of(other))
            &&& next.by_hash(hash) == v.by_hash(hash).push(id)
            &&& !v.by_hash(hash).contains(id)
            &&& (forall|h: RecordHash| h != hash ==> #[trigger] next.by_hash(h) == v.by_hash(h))
        }),
{
    let next = register_next(v, authorized, origin, id, owner, hash, version, props, now);
    let s = built_schema(id, owner, hash, version, props, now);
    assert(next.records == v.records.push(s));
    assert(next.records.drop_last() =~= v.records);
    assert(owner_pairs(next.records) =~= owner_pairs(v.records).push((owner, id)));
    assert(owner_of_pairs(next.records) =~= owner_of_pairs(v.records).push((id, owner)));
    assert(hash_pairs(next.records) =~= hash_pairs(v.records).push((hash, id)));
    assert(owner_pairs(next.records).drop_last() =~= owner_pairs(v.records));
    assert(owner_of_pairs(next.records).drop_last() =~= owner_of_pairs(v.records));
    assert(hash_pairs(next.records).drop_last() =~= hash_pairs(v.records));
    if v.by_owner(owner).contains(id) {
        lemma_owner_index_ids_are_registered(v.records, owner, id);
    }
    if v.by_hash(hash).contains(id) {
        lemma_hash_index_ids_are_registered(v.records, hash, id);
    }
}

} // verus!
